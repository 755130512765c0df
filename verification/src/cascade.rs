use vstd::prelude::*;
use crate::parse::parses_as;
use crate::strutil::{contains_seq, contains_str, ends_with_seq, ends_with_str, str_eq};
use crate::types::{cascade_order, EntityPropertyType};

verus! {

// ---------------------------------------------------------------------------
// The type inference cascade: candidates are evaluated in the fixed order of
// `cascade_order`, short-circuiting on the first candidate that parses every
// observed value; when none does, a near-unanimous best candidate is still
// accepted, and otherwise the property degrades to `Str`.
// ---------------------------------------------------------------------------

/// Names of flag-bitmask-like properties, for which the narrow candidates
/// are never attempted.
pub open spec fn denylisted(name: Seq<char>) -> bool {
    name == "spawnflags"@ || name == "ammo"@
}

/// Whether the cascade attempts candidate `t` for a property called `name`.
pub open spec fn attempted(t: EntityPropertyType, name: Seq<char>) -> bool {
    match t {
        EntityPropertyType::Bool => !denylisted(name),
        EntityPropertyType::Negated => !denylisted(name),
        EntityPropertyType::U8 => !denylisted(name),
        EntityPropertyType::U16 => name != "spawnflags"@,
        EntityPropertyType::Color => contains_seq(name, "color"@) || contains_seq(name, "light"@)
            || contains_seq(name, "ambient"@),
        EntityPropertyType::Angles => contains_seq(name, "angles"@) || ends_with_seq(
            name,
            "dir"@,
        ),
        _ => true,
    }
}

/// How many of the observed values parse as `t`.
pub open spec fn success_count(t: EntityPropertyType, values: Seq<Seq<char>>) -> nat
    decreases values.len(),
{
    if values.len() == 0 {
        0
    } else {
        success_count(t, values.drop_last()) + if parses_as(t, values.last()) {
            1nat
        } else {
            0nat
        }
    }
}

/// The first candidate at or after position `i` of the cascade order that is
/// attempted and parses every value.
pub open spec fn first_full_from(name: Seq<char>, values: Seq<Seq<char>>, i: int) -> Option<
    EntityPropertyType,
>
    decreases cascade_order().len() - i,
{
    if i < 0 || i >= cascade_order().len() {
        None
    } else {
        let t = cascade_order()[i];
        if attempted(t, name) && success_count(t, values) == values.len() {
            Some(t)
        } else {
            first_full_from(name, values, i + 1)
        }
    }
}

/// The best success count over the attempted candidates at or after `i`.
pub open spec fn best_from(name: Seq<char>, values: Seq<Seq<char>>, i: int) -> nat
    decreases cascade_order().len() - i,
{
    if i < 0 || i >= cascade_order().len() {
        0
    } else {
        let t = cascade_order()[i];
        let cur: nat = if attempted(t, name) {
            success_count(t, values)
        } else {
            0
        };
        let rest = best_from(name, values, i + 1);
        if cur >= rest {
            cur
        } else {
            rest
        }
    }
}

/// The first candidate at or after `i` that is attempted and has success
/// count exactly `c`.
pub open spec fn first_with_count_from(
    name: Seq<char>,
    values: Seq<Seq<char>>,
    c: nat,
    i: int,
) -> Option<EntityPropertyType>
    decreases cascade_order().len() - i,
{
    if i < 0 || i >= cascade_order().len() {
        None
    } else {
        let t = cascade_order()[i];
        if attempted(t, name) && success_count(t, values) == c {
            Some(t)
        } else {
            first_with_count_from(name, values, c, i + 1)
        }
    }
}

/// A best count of `b` out of `n` values clears the outlier tolerance:
/// `b >= ceil(0.99 * n)`.
pub open spec fn outlier_accept(b: nat, n: nat) -> bool {
    100 * b >= 99 * n
}

/// What the cascade returns: the first attempted candidate that parses every
/// value; failing that, the lowest-ordered attempted candidate achieving the
/// best count, if the values are plural and the best count is both a strict
/// majority and within the outlier tolerance; otherwise `Str`.
pub open spec fn minimal_type_spec(name: Seq<char>, values: Seq<Seq<char>>) -> EntityPropertyType {
    match first_full_from(name, values, 0) {
        Some(t) => t,
        None => {
            let b = best_from(name, values, 0);
            if values.len() > 1 && b > values.len() / 2 && outlier_accept(b, values.len()) {
                match first_with_count_from(name, values, b, 0) {
                    Some(t) => t,
                    None => EntityPropertyType::Str,
                }
            } else {
                EntityPropertyType::Str
            }
        },
    }
}

// ---------------------------------------------------------------------------
// Exec implementation.
// ---------------------------------------------------------------------------

/// Exec test for `attempted`.
fn attempted_exec(t: EntityPropertyType, name: &str) -> (r: bool)
    ensures
        r == attempted(t, name@),
{
    match t {
        EntityPropertyType::Bool | EntityPropertyType::Negated | EntityPropertyType::U8 => !(str_eq(
            name,
            "spawnflags",
        ) || str_eq(name, "ammo")),
        EntityPropertyType::U16 => !str_eq(name, "spawnflags"),
        EntityPropertyType::Color => contains_str(name, "color") || contains_str(name, "light")
            || contains_str(name, "ambient"),
        EntityPropertyType::Angles => contains_str(name, "angles") || ends_with_str(name, "dir"),
        _ => true,
    }
}

/// How many values the candidate's parser accepts.
fn count_parses(t: EntityPropertyType, values: &Vec<String>) -> (c: usize)
    ensures
        c as nat == success_count(t, values@.map_values(|v: String| v@)),
        c <= values@.len(),
{
    let ghost vs = values@.map_values(|v: String| v@);
    let mut c: usize = 0;
    let mut i: usize = 0;
    while i < values.len()
        invariant
            i <= values@.len(),
            vs == values@.map_values(|v: String| v@),
            c as nat == success_count(t, vs.take(i as int)),
            c <= i,
        decreases values@.len() - i,
    {
        proof {
            assert(vs.take(i + 1 as int).drop_last() =~= vs.take(i as int));
            assert(vs.take(i + 1 as int).last() == vs[i as int]);
        }
        if crate::parse::value_parses(t, values[i].as_str()) {
            c = c + 1;
        }
        i = i + 1;
    }
    proof {
        assert(vs.take(values@.len() as int) =~= vs);
    }
    c
}

spec fn max_nat(a: nat, b: nat) -> nat {
    if a >= b {
        a
    } else {
        b
    }
}

/// Whether a stored per-candidate count matches what the cascade's spec says
/// about that candidate.
spec fn entry_ok(
    e: Option<usize>,
    t: EntityPropertyType,
    name: Seq<char>,
    vs: Seq<Seq<char>>,
) -> bool {
    match e {
        Some(c) => attempted(t, name) && c as nat == success_count(t, vs),
        None => !attempted(t, name),
    }
}

/// The narrowest semantic type that explains (almost) all observed values of
/// a property, as `minimal_type_spec` describes.
pub fn get_minimal_type(name: &str, values: &Vec<String>) -> (t: EntityPropertyType)
    ensures
        t == minimal_type_spec(name@, values@.map_values(|v: String| v@)),
{
    let ghost vs = values@.map_values(|v: String| v@);
    let order: Vec<EntityPropertyType> = vec![
        EntityPropertyType::Bool,
        EntityPropertyType::Negated,
        EntityPropertyType::U8,
        EntityPropertyType::U16,
        EntityPropertyType::U32,
        EntityPropertyType::I32,
        EntityPropertyType::F32,
        EntityPropertyType::Color,
        EntityPropertyType::LightColor,
        EntityPropertyType::Angles,
        EntityPropertyType::Vector,
    ];
    assert(order@ =~= cascade_order());
    let nvals: usize = values.len();
    let mut best: usize = 0;
    let mut att_counts: Vec<Option<usize>> = Vec::new();
    let mut i: usize = 0;
    while i < 11
        invariant
            i <= 11,
            order@ == cascade_order(),
            vs == values@.map_values(|v: String| v@),
            nvals == vs.len(),
            best <= nvals,
            att_counts@.len() == i,
            first_full_from(name@, vs, 0) == first_full_from(name@, vs, i as int),
            best_from(name@, vs, 0) == max_nat(best as nat, best_from(name@, vs, i as int)),
            forall|j: int|
                0 <= j < i ==> entry_ok(att_counts@[j], cascade_order()[j], name@, vs),
        decreases 11 - i,
    {
        let t = order[i];
        let att = attempted_exec(t, name);
        if att {
            let c = count_parses(t, values);
            if c == nvals {
                assert(first_full_from(name@, vs, i as int) == Some(t));
                return t;
            }
            att_counts.push(Some(c));
            assert(best_from(name@, vs, i as int) == max_nat(
                success_count(t, vs),
                best_from(name@, vs, i + 1 as int),
            ));
            if c > best {
                best = c;
            }
        } else {
            att_counts.push(None);
            assert(best_from(name@, vs, i as int) == best_from(name@, vs, i + 1 as int));
        }
        i = i + 1;
    }
    assert(first_full_from(name@, vs, 0) is None);
    assert(best_from(name@, vs, 0) == best as nat);
    if nvals > 1 && best > nvals / 2 && (best as u128) * 100 >= (nvals as u128) * 99 {
        let ghost b = best as nat;
        let mut j: usize = 0;
        while j < 11
            invariant
                j <= 11,
                order@ == cascade_order(),
                vs == values@.map_values(|v: String| v@),
                att_counts@.len() == 11,
                b == best as nat,
                nvals == vs.len(),
                first_full_from(name@, vs, 0) is None,
                b == best_from(name@, vs, 0),
                vs.len() > 1,
                b > vs.len() / 2,
                outlier_accept(b, vs.len()),
                first_with_count_from(name@, vs, b, 0) == first_with_count_from(
                    name@,
                    vs,
                    b,
                    j as int,
                ),
                forall|k: int|
                    0 <= k < 11 ==> entry_ok(att_counts@[k], cascade_order()[k], name@, vs),
            decreases 11 - j,
        {
            let e = att_counts[j];
            match e {
                Some(c) => {
                    if c == best {
                        assert(first_with_count_from(name@, vs, b, j as int) == Some(
                            cascade_order()[j as int],
                        ));
                        return order[j];
                    }
                },
                None => {},
            }
            assert(first_with_count_from(name@, vs, b, j as int) == first_with_count_from(
                name@,
                vs,
                b,
                j + 1 as int,
            ));
            j = j + 1;
        }
        assert(first_with_count_from(name@, vs, b, 0) is None);
        return EntityPropertyType::Str;
    }
    EntityPropertyType::Str
}

// ---------------------------------------------------------------------------
// Properties of the cascade.
// ---------------------------------------------------------------------------

/// Each position of the cascade order holds the candidate of that rank.
pub proof fn lemma_cascade_order_ranks()
    ensures
        cascade_order().len() == 11,
        forall|j: int| 0 <= j < 11 ==> (#[trigger] cascade_order()[j]).rank() == j,
        forall|t: EntityPropertyType| t.rank() < 11 ==> cascade_order()[t.rank()] == t,
{
    assert forall|j: int| 0 <= j < 11 implies (#[trigger] cascade_order()[j]).rank() == j by {
        reveal_with_fuel(cascade_order, 1);
    }
    assert forall|t: EntityPropertyType| t.rank() < 11 implies cascade_order()[t.rank()] == t by {
        let r = t.rank();
        assert(cascade_order()[r].rank() == r);
    }
}

/// `first_full_from` finds the candidate at `k` when nothing earlier (from
/// `i` on) is attempted with a full parse.
proof fn lemma_ff_from(name: Seq<char>, values: Seq<Seq<char>>, i: int, k: int)
    requires
        0 <= i <= k < 11,
        attempted(cascade_order()[k], name),
        success_count(cascade_order()[k], values) == values.len(),
        forall|j: int|
            i <= j < k ==> !(attempted(cascade_order()[j], name) && success_count(
                cascade_order()[j],
                values,
            ) == values.len()),
    ensures
        first_full_from(name, values, i) == Some(cascade_order()[k]),
    decreases k - i,
{
    if i < k {
        lemma_ff_from(name, values, i + 1, k);
    }
}

/// What `first_full_from` returns, characterized through candidate ranks.
proof fn lemma_ff_char(name: Seq<char>, values: Seq<Seq<char>>, i: int)
    requires
        0 <= i <= 11,
    ensures
        match first_full_from(name, values, i) {
            Some(t) => {
                &&& i <= t.rank() < 11
                &&& attempted(t, name)
                &&& success_count(t, values) == values.len()
                &&& forall|j: int|
                    i <= j < t.rank() ==> !(attempted(cascade_order()[j], name)
                        && success_count(cascade_order()[j], values) == values.len())
            },
            None => forall|j: int|
                i <= j < 11 ==> !(attempted(cascade_order()[j], name) && success_count(
                    cascade_order()[j],
                    values,
                ) == values.len()),
        },
    decreases 11 - i,
{
    lemma_cascade_order_ranks();
    if i < 11 {
        let t = cascade_order()[i];
        if attempted(t, name) && success_count(t, values) == values.len() {
        } else {
            lemma_ff_char(name, values, i + 1);
        }
    }
}

/// What `first_with_count_from` returns, characterized through ranks.
proof fn lemma_fwc_char(name: Seq<char>, values: Seq<Seq<char>>, c: nat, i: int)
    requires
        0 <= i <= 11,
    ensures
        match first_with_count_from(name, values, c, i) {
            Some(t) => {
                &&& i <= t.rank() < 11
                &&& attempted(t, name)
                &&& success_count(t, values) == c
                &&& forall|j: int|
                    i <= j < t.rank() ==> !(attempted(cascade_order()[j], name)
                        && success_count(cascade_order()[j], values) == c)
            },
            None => forall|j: int|
                i <= j < 11 ==> !(attempted(cascade_order()[j], name) && success_count(
                    cascade_order()[j],
                    values,
                ) == c),
        },
    decreases 11 - i,
{
    lemma_cascade_order_ranks();
    if i < 11 {
        let t = cascade_order()[i];
        if attempted(t, name) && success_count(t, values) == c {
        } else {
            lemma_fwc_char(name, values, c, i + 1);
        }
    }
}

/// `best_from` bounds every attempted candidate's count and is achieved by
/// one of them unless it is zero.
proof fn lemma_best_char(name: Seq<char>, values: Seq<Seq<char>>, i: int)
    requires
        0 <= i <= 11,
    ensures
        forall|j: int|
            i <= j < 11 && attempted(cascade_order()[j], name) ==> success_count(
                cascade_order()[j],
                values,
            ) <= best_from(name, values, i),
        best_from(name, values, i) == 0 || exists|j: int|
            i <= j < 11 && attempted(cascade_order()[j], name) && success_count(
                cascade_order()[j],
                values,
            ) == best_from(name, values, i),
    decreases 11 - i,
{
    if i < 11 {
        lemma_best_char(name, values, i + 1);
        let t = cascade_order()[i];
        let b = best_from(name, values, i);
        if attempted(t, name) && success_count(t, values) == b {
            assert(i <= i < 11 && attempted(cascade_order()[i], name) && success_count(
                cascade_order()[i],
                values,
            ) == b);
        }
    }
}

/// Cascade law: if the cascade attempts `t` for `name`, every observed value
/// parses as `t`, and no earlier-ordered attempted candidate parses every
/// value, the cascade returns exactly `t`.
pub proof fn lemma_full_parse_returns_candidate(
    name: Seq<char>,
    values: Seq<Seq<char>>,
    t: EntityPropertyType,
)
    requires
        t.rank() < 11,
        attempted(t, name),
        success_count(t, values) == values.len(),
        forall|u: EntityPropertyType|
            u.rank() < t.rank() && attempted(u, name) ==> success_count(u, values)
                != values.len(),
    ensures
        minimal_type_spec(name, values) == t,
{
    lemma_cascade_order_ranks();
    assert forall|j: int| 0 <= j < t.rank() implies !(attempted(cascade_order()[j], name)
        && success_count(cascade_order()[j], values) == values.len()) by {
        let u = cascade_order()[j];
        assert(u.rank() == j);
    }
    lemma_ff_from(name, values, 0, t.rank());
}

/// With no observed values every attempted candidate has a vacuous full
/// parse, so the cascade deterministically returns the first candidate it
/// attempts: `Bool` for ordinary names, `U16` for the second denylisted
/// name, `U32` for the flag-bitmask name, which skips `U16` too.
pub proof fn lemma_empty_values(name: Seq<char>)
    ensures
        minimal_type_spec(name, Seq::empty()) == (if !denylisted(name) {
            EntityPropertyType::Bool
        } else if name != "spawnflags"@ {
            EntityPropertyType::U16
        } else {
            EntityPropertyType::U32
        }),
{
    let values = Seq::<Seq<char>>::empty();
    lemma_cascade_order_ranks();
    if !denylisted(name) {
        assert(first_full_from(name, values, 0) == Some(EntityPropertyType::Bool));
    } else if name != "spawnflags"@ {
        assert(first_full_from(name, values, 3) == Some(EntityPropertyType::U16));
        assert(first_full_from(name, values, 2) == first_full_from(name, values, 3));
        assert(first_full_from(name, values, 1) == first_full_from(name, values, 2));
        assert(first_full_from(name, values, 0) == first_full_from(name, values, 1));
    } else {
        assert(first_full_from(name, values, 4) == Some(EntityPropertyType::U32));
        assert(first_full_from(name, values, 3) == first_full_from(name, values, 4));
        assert(first_full_from(name, values, 2) == first_full_from(name, values, 3));
        assert(first_full_from(name, values, 1) == first_full_from(name, values, 2));
        assert(first_full_from(name, values, 0) == first_full_from(name, values, 1));
    }
}

/// The cascade only ever returns a candidate it attempts for the name
/// (`Str`, the fallback, is attempted for every name).
pub proof fn lemma_result_attempted(name: Seq<char>, values: Seq<Seq<char>>)
    ensures
        attempted(minimal_type_spec(name, values), name),
{
    lemma_ff_char(name, values, 0);
    match first_full_from(name, values, 0) {
        Some(_) => {},
        None => {
            let b = best_from(name, values, 0);
            lemma_fwc_char(name, values, b, 0);
        },
    }
}

/// Denylist law: for the flag-bitmask name the cascade never returns any of
/// the candidates it skips for that name.
pub proof fn lemma_denylist_spawnflags(values: Seq<Seq<char>>)
    ensures
        minimal_type_spec("spawnflags"@, values) != EntityPropertyType::Bool,
        minimal_type_spec("spawnflags"@, values) != EntityPropertyType::Negated,
        minimal_type_spec("spawnflags"@, values) != EntityPropertyType::U8,
        minimal_type_spec("spawnflags"@, values) != EntityPropertyType::U16,
{
    lemma_result_attempted("spawnflags"@, values);
}

/// A pointwise-accepted value set has a full success count.
proof fn lemma_success_count_full(t: EntityPropertyType, values: Seq<Seq<char>>)
    requires
        forall|i: int| 0 <= i < values.len() ==> parses_as(t, #[trigger] values[i]),
    ensures
        success_count(t, values) == values.len(),
    decreases values.len(),
{
    if values.len() > 0 {
        assert forall|i: int| 0 <= i < values.drop_last().len() implies parses_as(
            t,
            #[trigger] values.drop_last()[i],
        ) by {
            assert(values.drop_last()[i] == values[i]);
        }
        lemma_success_count_full(t, values.drop_last());
    }
}

/// Denylist narrowing: for the flag-bitmask name every candidate before
/// `U32` is skipped, so a value set the 32-bit unsigned parser fully
/// accepts resolves to exactly `U32`, the narrowest candidate attempted.
pub proof fn lemma_spawnflags_narrowest(values: Seq<Seq<char>>)
    requires
        forall|i: int| 0 <= i < values.len() ==> crate::parse::parses_u32(#[trigger] values[i]),
    ensures
        minimal_type_spec("spawnflags"@, values) == EntityPropertyType::U32,
{
    lemma_success_count_full(EntityPropertyType::U32, values);
    lemma_full_parse_returns_candidate("spawnflags"@, values, EntityPropertyType::U32);
}

/// Outlier tolerance law: when no attempted candidate parses every value
/// but the best count is a strict majority within the tolerance
/// (`100 * best >= 99 * len`), the cascade returns the lowest-ordered
/// attempted candidate achieving that best count.
pub proof fn lemma_outlier_tolerance(name: Seq<char>, values: Seq<Seq<char>>)
    requires
        values.len() > 1,
        forall|u: EntityPropertyType|
            u.rank() < 11 && attempted(u, name) ==> success_count(u, values) != values.len(),
        best_from(name, values, 0) > values.len() / 2,
        outlier_accept(best_from(name, values, 0), values.len()),
    ensures
        ({
            let t = minimal_type_spec(name, values);
            let b = best_from(name, values, 0);
            &&& t.rank() < 11
            &&& attempted(t, name)
            &&& success_count(t, values) == b
            &&& forall|u: EntityPropertyType|
                u.rank() < t.rank() && attempted(u, name) ==> success_count(u, values) < b
        }),
{
    lemma_cascade_order_ranks();
    lemma_ff_char(name, values, 0);
    let b = best_from(name, values, 0);
    match first_full_from(name, values, 0) {
        Some(t) => {
            assert(false);
        },
        None => {},
    }
    lemma_best_char(name, values, 0);
    lemma_fwc_char(name, values, b, 0);
    match first_with_count_from(name, values, b, 0) {
        Some(t) => {
            assert forall|u: EntityPropertyType|
                u.rank() < t.rank() && attempted(u, name) implies success_count(u, values)
                < b by {
                let j = u.rank();
                assert(cascade_order()[j] == u);
                assert(success_count(u, values) <= b);
                assert(success_count(u, values) != b);
            }
        },
        None => {
            let k = choose|j: int|
                0 <= j < 11 && attempted(cascade_order()[j], name) && success_count(
                    cascade_order()[j],
                    values,
                ) == b;
            assert(false);
        },
    }
}

} // verus!
