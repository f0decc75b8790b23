//! Building an identity from keys: `Id(^books, 7)` or, for a composite
//! identity, `Id(^loans, book: 7, member: 3)`. The arguments are planned
//! here against the declared identity keys: which argument supplies each
//! key, in declared order, or why the arguments cannot build an identity.

use vstd::prelude::*;

use crate::numeral::{decimal_chars, push_decimal};
use crate::schema::string_views;
use crate::strbuf::{push_str, str_eq};

verus! {

/// How one identity-constructor argument was written: its name, if it was
/// passed by name, and whether it was passed as an `out` argument.
#[derive(Debug, Clone, PartialEq, Eq)]
pub struct IdentityArgShape {
    pub name: Option<String>,
    pub is_out: bool,
}

/// Why identity-constructor arguments cannot build an identity.
#[derive(Debug, Clone, Copy, PartialEq, Eq, Structural)]
pub enum IdentityFault {
    /// The resource declares no identity keys.
    NoIdentityKeys,
    /// An argument was passed as an `out` argument.
    OutArgument,
    /// The number of arguments is not the number of identity keys.
    Arity { expected: usize, got: usize },
    /// Some arguments are named and some positional.
    MixedShapes,
    /// No argument is named after the declared key at this index.
    MissingKey { index: usize },
}

/// The diagnostic text of a fault, for the resource named `resource` whose
/// identity keys are named `keys`. For a resource with no identity keys it is
/// the description of the unsupported construct.
pub open spec fn identity_fault_text(f: IdentityFault, resource: Seq<char>, keys: Seq<Seq<char>>) -> Seq<
    char,
> {
    match f {
        IdentityFault::NoIdentityKeys => "an identity for a resource with no identity keys"@,
        IdentityFault::OutArgument => "an identity key cannot be an out argument"@,
        IdentityFault::Arity { expected, got } => "`"@ + resource + "::Id` takes "@ + decimal_chars(
            expected as nat,
        ) + " key(s), got "@ + decimal_chars(got as nat),
        IdentityFault::MixedShapes => "an identity takes either positional or named keys, not both"@,
        IdentityFault::MissingKey { index } => "identity key `"@ + keys[index as int] + "` is missing"@,
    }
}

impl IdentityFault {
    /// The diagnostic text of this fault for the resource named `resource`
    /// whose identity keys are named `key_names`.
    pub fn message(&self, resource: &str, key_names: &Vec<String>) -> (r: String)
        requires
            self matches IdentityFault::MissingKey { index } ==> index < key_names@.len(),
        ensures
            r@ == identity_fault_text(*self, resource@, string_views(key_names@)),
    {
        let mut out = String::new();
        match self {
            IdentityFault::NoIdentityKeys => {
                push_str(&mut out, "an identity for a resource with no identity keys");
            },
            IdentityFault::OutArgument => {
                push_str(&mut out, "an identity key cannot be an out argument");
            },
            IdentityFault::Arity { expected, got } => {
                push_str(&mut out, "`");
                push_str(&mut out, resource);
                push_str(&mut out, "::Id` takes ");
                push_decimal(&mut out, *expected as u64);
                push_str(&mut out, " key(s), got ");
                push_decimal(&mut out, *got as u64);
            },
            IdentityFault::MixedShapes => {
                push_str(&mut out, "an identity takes either positional or named keys, not both");
            },
            IdentityFault::MissingKey { index } => {
                push_str(&mut out, "identity key `");
                push_str(&mut out, key_names[*index].as_str());
                push_str(&mut out, "` is missing");
            },
        }
        out
    }
}

/// The name of an argument, by its chars.
pub open spec fn arg_name(arg: IdentityArgShape) -> Option<Seq<char>> {
    match arg.name {
        Some(n) => Some(n@),
        None => None,
    }
}

/// How many of the arguments are named.
pub open spec fn named_count(args: Seq<IdentityArgShape>) -> int
    decreases args.len(),
{
    if args.len() == 0 {
        0
    } else {
        named_count(args.drop_last()) + if args.last().name is Some {
            1int
        } else {
            0int
        }
    }
}

/// The index of the first argument named `name`.
pub open spec fn arg_named(args: Seq<IdentityArgShape>, name: Seq<char>) -> Option<int>
    decreases args.len(),
{
    if args.len() == 0 {
        None
    } else if arg_name(args[0]) == Some(name) {
        Some(0)
    } else {
        match arg_named(args.drop_first(), name) {
            Some(i) => Some(i + 1),
            None => None,
        }
    }
}

/// For each declared key in order, the first argument named after it; the
/// first key that no argument names is refused.
pub open spec fn named_plan(keys: Seq<Seq<char>>, args: Seq<IdentityArgShape>) -> Result<
    Seq<int>,
    IdentityFault,
>
    decreases keys.len(),
{
    if keys.len() == 0 {
        Ok(Seq::empty())
    } else {
        match named_plan(keys.drop_last(), args) {
            Err(e) => Err(e),
            Ok(p) => match arg_named(args, keys.last()) {
                Some(i) => Ok(p.push(i)),
                None => Err(IdentityFault::MissingKey { index: (keys.len() - 1) as usize }),
            },
        }
    }
}

proof fn lemma_named_plan_error_stays(keys: Seq<Seq<char>>, args: Seq<IdentityArgShape>, m: int)
    requires
        0 <= m <= keys.len(),
        named_plan(keys.take(m), args) is Err,
    ensures
        named_plan(keys, args) == named_plan(keys.take(m), args),
    decreases keys.len() - m,
{
    if m < keys.len() {
        let next = keys.take(m + 1);
        assert(next.drop_last() =~= keys.take(m));
        lemma_named_plan_error_stays(keys, args, m + 1);
    } else {
        assert(keys.take(m) =~= keys);
    }
}

/// The plan of identity-constructor arguments against the declared identity
/// keys: for each key in declared order, the index of the argument that
/// supplies it. There must be keys, no `out` argument, one argument per key,
/// and either no argument named or every argument named; positional
/// arguments supply the keys in order, named ones by their names.
pub open spec fn identity_arg_plan_spec(keys: Seq<Seq<char>>, args: Seq<IdentityArgShape>) -> Result<
    Seq<int>,
    IdentityFault,
> {
    if keys.len() == 0 {
        Err(IdentityFault::NoIdentityKeys)
    } else if exists|i: int| 0 <= i < args.len() && (#[trigger] args[i]).is_out {
        Err(IdentityFault::OutArgument)
    } else if args.len() != keys.len() {
        Err(IdentityFault::Arity { expected: keys.len() as usize, got: args.len() as usize })
    } else if named_count(args) != 0 && named_count(args) != args.len() {
        Err(IdentityFault::MixedShapes)
    } else if named_count(args) == 0 {
        Ok(Seq::new(args.len(), |i: int| i))
    } else {
        named_plan(keys, args)
    }
}

/// A plan by its indexes as integers.
pub open spec fn plan_view(v: Seq<usize>) -> Seq<int> {
    v.map_values(|i: usize| i as int)
}

fn first_arg_named(args: &Vec<IdentityArgShape>, name: &str) -> (r: Option<usize>)
    ensures
        r matches Some(i) ==> arg_named(args@, name@) == Some(i as int) && i < args@.len(),
        r is None ==> arg_named(args@, name@) is None,
{
    let mut i: usize = 0;
    assert(args@.skip(0) =~= args@);
    while i < args.len()
        invariant
            i <= args@.len(),
            arg_named(args@, name@) == match arg_named(args@.skip(i as int), name@) {
                Some(k) => Some(k + i),
                None => None::<int>,
            },
        decreases args@.len() - i,
    {
        let ghost rest = args@.skip(i as int);
        assert(rest[0] == args@[i as int]);
        assert(rest.drop_first() =~= args@.skip(i + 1));
        let found = match &args[i].name {
            Some(n) => str_eq(n.as_str(), name),
            None => false,
        };
        assert(found == (arg_name(rest[0]) == Some(name@)));
        if found {
            return Some(i);
        }
        i = i + 1;
    }
    assert(args@.skip(i as int).len() == 0);
    None
}

/// Plans identity-constructor arguments against the declared identity keys:
/// for each key in declared order, the index of the argument that supplies
/// it, or why the arguments cannot build an identity.
pub fn identity_arg_plan(key_names: &Vec<String>, args: &Vec<IdentityArgShape>) -> (r: Result<
    Vec<usize>,
    IdentityFault,
>)
    ensures
        match identity_arg_plan_spec(string_views(key_names@), args@) {
            Ok(p) => r matches Ok(v) && plan_view(v@) == p,
            Err(e) => r == Err::<Vec<usize>, IdentityFault>(e),
        },
{
    let ghost keys = string_views(key_names@);
    assert(keys.len() == key_names@.len());
    if key_names.len() == 0 {
        return Err(IdentityFault::NoIdentityKeys);
    }
    let mut i: usize = 0;
    while i < args.len()
        invariant
            i <= args@.len(),
            key_names@.len() > 0,
            string_views(key_names@).len() == key_names@.len(),
            forall|k: int| 0 <= k < i ==> !(#[trigger] args@[k]).is_out,
        decreases args@.len() - i,
    {
        if args[i].is_out {
            assert(args@[i as int].is_out);
            return Err(IdentityFault::OutArgument);
        }
        i = i + 1;
    }
    if args.len() != key_names.len() {
        return Err(IdentityFault::Arity { expected: key_names.len(), got: args.len() });
    }
    let mut named: usize = 0;
    let mut j: usize = 0;
    while j < args.len()
        invariant
            j <= args@.len(),
            named == named_count(args@.take(j as int)),
            named <= j,
        decreases args@.len() - j,
    {
        assert(args@.take(j + 1).drop_last() =~= args@.take(j as int));
        if args[j].name.is_some() {
            named = named + 1;
        }
        j = j + 1;
    }
    assert(args@.take(j as int) =~= args@);
    if named != 0 && named != args.len() {
        return Err(IdentityFault::MixedShapes);
    }
    let mut plan: Vec<usize> = Vec::new();
    if named == 0 {
        let mut k: usize = 0;
        while k < args.len()
            invariant
                k <= args@.len(),
                plan@.len() == k,
                plan_view(plan@) == Seq::new(k as nat, |t: int| t),
            decreases args@.len() - k,
        {
            let ghost before = plan@;
            plan.push(k);
            assert forall|t: int| 0 <= t < k + 1 implies plan_view(plan@)[t] == t by {
                if t < k {
                    assert(plan@[t] == before[t]);
                    assert(plan_view(before)[t] == t);
                }
            }
            assert(plan_view(plan@) =~= Seq::new((k + 1) as nat, |t: int| t));
            k = k + 1;
        }
        return Ok(plan);
    }
    let mut k: usize = 0;
    assert(keys.take(0) =~= Seq::<Seq<char>>::empty());
    assert(plan_view(plan@) =~= Seq::<int>::empty());
    while k < key_names.len()
        invariant
            k <= key_names@.len(),
            keys == string_views(key_names@),
            keys.len() == key_names@.len(),
            key_names@.len() > 0,
            args@.len() == key_names@.len(),
            forall|t: int| 0 <= t < args@.len() ==> !(#[trigger] args@[t]).is_out,
            named_count(args@) != 0,
            named_count(args@) == args@.len(),
            named_plan(keys.take(k as int), args@) == Ok::<Seq<int>, IdentityFault>(plan_view(plan@)),
        decreases key_names@.len() - k,
    {
        assert(keys.take(k + 1).drop_last() =~= keys.take(k as int));
        assert(keys.take(k + 1).last() == key_names@[k as int]@);
        match first_arg_named(args, key_names[k].as_str()) {
            Some(a) => {
                let ghost before = plan@;
                plan.push(a);
                assert(plan@.drop_last() =~= before);
                assert(plan_view(plan@) =~= plan_view(before).push(a as int));
            },
            None => {
                proof {
                    assert(named_plan(keys.take(k + 1), args@) is Err);
                    lemma_named_plan_error_stays(keys, args@, k + 1);
                }
                return Err(IdentityFault::MissingKey { index: k });
            },
        }
        k = k + 1;
    }
    assert(keys.take(k as int) =~= keys);
    Ok(plan)
}

proof fn lemma_arg_named_found(args: Seq<IdentityArgShape>, name: Seq<char>)
    ensures
        arg_named(args, name) matches Some(i) ==> 0 <= i < args.len() && arg_name(args[i]) == Some(
            name,
        ) && forall|j: int| 0 <= j < i ==> arg_name(#[trigger] args[j]) != Some(name),
    decreases args.len(),
{
    if args.len() > 0 {
        lemma_arg_named_found(args.drop_first(), name);
        if let Some(i) = arg_named(args, name) {
            if i > 0 {
                assert forall|j: int| 0 <= j < i implies arg_name(#[trigger] args[j]) != Some(name) by {
                    if j > 0 {
                        assert(args[j] == args.drop_first()[j - 1]);
                    }
                }
                assert(args[i] == args.drop_first()[i - 1]);
            }
        }
    }
}

proof fn lemma_arg_named_at(args: Seq<IdentityArgShape>, name: Seq<char>, i: int)
    requires
        0 <= i < args.len(),
        arg_name(args[i]) == Some(name),
        forall|j: int| 0 <= j < i ==> arg_name(#[trigger] args[j]) != Some(name),
    ensures
        arg_named(args, name) == Some(i),
    decreases i,
{
    if i > 0 {
        assert forall|j: int| 0 <= j < i - 1 implies arg_name(#[trigger] args.drop_first()[j]) != Some(
            name,
        ) by {
            assert(args.drop_first()[j] == args[j + 1]);
        }
        assert(args[0] == args[0]);
        lemma_arg_named_at(args.drop_first(), name, i - 1);
    }
}

proof fn lemma_named_plan_ok(keys: Seq<Seq<char>>, args: Seq<IdentityArgShape>)
    ensures
        named_plan(keys, args) matches Ok(p) ==> p.len() == keys.len() && forall|k: int|
            0 <= k < keys.len() ==> arg_named(args, #[trigger] keys[k]) == Some(p[k]),
    decreases keys.len(),
{
    if keys.len() > 0 {
        lemma_named_plan_ok(keys.drop_last(), args);
        if let Ok(p) = named_plan(keys, args) {
            assert forall|k: int| 0 <= k < keys.len() implies arg_named(args, #[trigger] keys[k]) == Some(
                p[k],
            ) by {
                if k < keys.len() - 1 {
                    assert(keys[k] == keys.drop_last()[k]);
                }
            }
        }
    }
}

proof fn lemma_named_count(args: Seq<IdentityArgShape>)
    ensures
        0 <= named_count(args) <= args.len(),
        named_count(args) == args.len() <==> forall|i: int| 0 <= i < args.len() ==> (#[trigger] args[i]).name is Some,
    decreases args.len(),
{
    if args.len() > 0 {
        lemma_named_count(args.drop_last());
        if named_count(args) == args.len() {
            assert forall|i: int| 0 <= i < args.len() implies (#[trigger] args[i]).name is Some by {
                if i < args.len() - 1 {
                    assert(args[i] == args.drop_last()[i]);
                }
            }
        }
        if forall|i: int| 0 <= i < args.len() ==> (#[trigger] args[i]).name is Some {
            assert forall|i: int| 0 <= i < args.drop_last().len() implies (#[trigger] args.drop_last()[i]).name is Some by {
                assert(args.drop_last()[i] == args[i]);
            }
            assert(args[args.len() - 1].name is Some);
        }
    }
}

proof fn lemma_named_plan_in_order(keys: Seq<Seq<char>>, args: Seq<IdentityArgShape>, m: int)
    requires
        0 <= m <= keys.len(),
        forall|k: int| 0 <= k < keys.len() ==> arg_named(args, #[trigger] keys[k]) == Some(k),
    ensures
        named_plan(keys.take(m), args) == Ok::<Seq<int>, IdentityFault>(Seq::new(m as nat, |i: int| i)),
    decreases m,
{
    if m > 0 {
        lemma_named_plan_in_order(keys, args, m - 1);
        assert(keys.take(m).drop_last() =~= keys.take(m - 1));
        assert(keys.take(m).last() == keys[m - 1]);
        assert(Seq::new((m - 1) as nat, |i: int| i).push(m - 1) =~= Seq::new(m as nat, |i: int| i));
    } else {
        assert(keys.take(0) =~= Seq::<Seq<char>>::empty());
        assert(Seq::new(0, |i: int| i) =~= Seq::<int>::empty());
    }
}

/// The arguments in plan order: the `k`-th is the one that supplies key `k`.
pub open spec fn reordered(args: Seq<IdentityArgShape>, plan: Seq<int>) -> Seq<IdentityArgShape> {
    Seq::new(plan.len(), |k: int| args[plan[k]])
}

/// A plan of named keys is the positional plan of the arguments put in
/// plan order: for distinct key names, the argument planned for each key is
/// named after it, and planning the reordered arguments supplies every key
/// from the argument at its own position.
pub proof fn lemma_named_plan_is_positional(keys: Seq<Seq<char>>, args: Seq<IdentityArgShape>)
    requires
        forall|i: int, j: int| 0 <= i < j < keys.len() ==> keys[i] != keys[j],
        named_count(args) != 0,
        identity_arg_plan_spec(keys, args) is Ok,
    ensures
        ({
            let p = identity_arg_plan_spec(keys, args)->Ok_0;
            &&& forall|k: int| 0 <= k < keys.len() ==> arg_name(#[trigger] args[p[k]]) == Some(keys[k])
            &&& identity_arg_plan_spec(keys, reordered(args, p)) == Ok::<Seq<int>, IdentityFault>(
                Seq::new(keys.len(), |i: int| i),
            )
        }),
{
    let p = identity_arg_plan_spec(keys, args)->Ok_0;
    assert(named_plan(keys, args) == Ok::<Seq<int>, IdentityFault>(p));
    lemma_named_plan_ok(keys, args);
    let r = reordered(args, p);
    assert forall|k: int| 0 <= k < keys.len() implies arg_name(#[trigger] args[p[k]]) == Some(keys[k])
        && 0 <= p[k] < args.len() by {
        lemma_arg_named_found(args, keys[k]);
    }
    assert forall|k: int| 0 <= k < keys.len() implies arg_named(r, #[trigger] keys[k]) == Some(k) by {
        assert(r[k] == args[p[k]]);
        assert(arg_name(args[p[k]]) == Some(keys[k]));
        assert forall|j: int| 0 <= j < k implies arg_name(#[trigger] r[j]) != Some(keys[k]) by {
            assert(r[j] == args[p[j]]);
            assert(arg_name(args[p[j]]) == Some(keys[j]));
        }
        lemma_arg_named_at(r, keys[k], k);
    }
    lemma_named_plan_in_order(keys, r, keys.len() as int);
    assert(keys.take(keys.len() as int) =~= keys);
    lemma_named_count(r);
    assert forall|i: int| 0 <= i < r.len() implies (#[trigger] r[i]).name is Some by {
        assert(r[i] == args[p[i]]);
        assert(arg_name(args[p[i]]) == Some(keys[i]));
    }
    assert forall|i: int| 0 <= i < r.len() implies !(#[trigger] r[i]).is_out by {
        assert(r[i] == args[p[i]]);
        assert(!args[p[i]].is_out);
    }
}

} // verus!
