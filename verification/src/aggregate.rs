use vstd::prelude::*;

verus! {

// ---------------------------------------------------------------------------
// Observed-corpus aggregation: entities are folded, in order, into one
// accumulator per class name. An entity without a classname, or with an
// empty one, contributes nothing; the classname itself, the opaque instance
// id, and properties with empty names are never aggregated as values.
// ---------------------------------------------------------------------------

/// One decoded entity: its key/value pairs, in file order.
pub struct Entity {
    pub props: Vec<(String, String)>,
}

impl View for Entity {
    type V = Seq<(Seq<char>, Seq<char>)>;

    open spec fn view(&self) -> Seq<(Seq<char>, Seq<char>)> {
        self.props@.map_values(|p: (String, String)| (p.0@, p.1@))
    }
}

/// The values observed for one property of one class, in observation order.
pub struct ObservedProperty {
    pub name: String,
    pub values: Vec<String>,
}

pub ghost struct ObservedPropertyV {
    pub name: Seq<char>,
    pub values: Seq<Seq<char>>,
}

impl View for ObservedProperty {
    type V = ObservedPropertyV;

    open spec fn view(&self) -> ObservedPropertyV {
        ObservedPropertyV { name: self.name@, values: self.values@.map_values(|v: String| v@) }
    }
}

/// Everything observed about one class: how many instances appeared, and
/// the values of each property, keyed by property name (names are unique).
pub struct ObservedClass {
    pub name: String,
    pub occurrences: usize,
    pub properties: Vec<ObservedProperty>,
}

pub ghost struct ObservedClassV {
    pub name: Seq<char>,
    pub occurrences: nat,
    pub properties: Seq<ObservedPropertyV>,
}

impl View for ObservedClass {
    type V = ObservedClassV;

    open spec fn view(&self) -> ObservedClassV {
        ObservedClassV {
            name: self.name@,
            occurrences: self.occurrences as nat,
            properties: self.properties@.map_values(|p: ObservedProperty| p@),
        }
    }
}

// ---------------------------------------------------------------------------
// Spec-level fold.
// ---------------------------------------------------------------------------

/// Value of the first pair with the given key, the entity's lookup-by-key.
pub open spec fn lookup_value(e: Seq<(Seq<char>, Seq<char>)>, key: Seq<char>) -> Option<Seq<char>>
    decreases e.len(),
{
    if e.len() == 0 {
        None
    } else if e[0].0 == key {
        Some(e[0].1)
    } else {
        lookup_value(e.skip(1), key)
    }
}

/// Index of the first accumulated class with the given name, or -1.
pub open spec fn class_index(acc: Seq<ObservedClassV>, name: Seq<char>) -> int
    decreases acc.len(),
{
    if acc.len() == 0 {
        -1
    } else if acc[0].name == name {
        0
    } else {
        let r = class_index(acc.skip(1), name);
        if r < 0 {
            -1
        } else {
            r + 1
        }
    }
}

/// Index of the first observed property with the given name, or -1.
pub open spec fn prop_index(props: Seq<ObservedPropertyV>, name: Seq<char>) -> int
    decreases props.len(),
{
    if props.len() == 0 {
        -1
    } else if props[0].name == name {
        0
    } else {
        let r = prop_index(props.skip(1), name);
        if r < 0 {
            -1
        } else {
            r + 1
        }
    }
}

/// Keys that are never aggregated as property values: the classname itself,
/// the opaque per-instance id, and the empty name.
pub open spec fn skip_pair_key(k: Seq<char>) -> bool {
    k == "classname"@ || k == "hammerid"@ || k.len() == 0
}

/// Fold one key/value pair into a class accumulator.
pub open spec fn add_pair(oc: ObservedClassV, p: (Seq<char>, Seq<char>)) -> ObservedClassV {
    if skip_pair_key(p.0) {
        oc
    } else {
        let j = prop_index(oc.properties, p.0);
        if j < 0 {
            ObservedClassV {
                properties: oc.properties.push(
                    ObservedPropertyV { name: p.0, values: seq![p.1] },
                ),
                ..oc
            }
        } else {
            ObservedClassV {
                properties: oc.properties.update(
                    j,
                    ObservedPropertyV { name: p.0, values: oc.properties[j].values.push(p.1) },
                ),
                ..oc
            }
        }
    }
}

/// Fold an entity's pairs, in order, into a class accumulator.
pub open spec fn add_pairs(oc: ObservedClassV, pairs: Seq<(Seq<char>, Seq<char>)>) -> ObservedClassV
    decreases pairs.len(),
{
    if pairs.len() == 0 {
        oc
    } else {
        add_pair(add_pairs(oc, pairs.drop_last()), pairs.last())
    }
}

/// Fold one entity into the per-class accumulators.
pub open spec fn add_entity(acc: Seq<ObservedClassV>, e: Seq<(Seq<char>, Seq<char>)>) -> Seq<
    ObservedClassV,
> {
    match lookup_value(e, "classname"@) {
        None => acc,
        Some(c) => {
            if c.len() == 0 {
                acc
            } else {
                let j0 = class_index(acc, c);
                let acc1 = if j0 < 0 {
                    acc.push(ObservedClassV { name: c, occurrences: 0, properties: Seq::empty() })
                } else {
                    acc
                };
                let j = if j0 < 0 {
                    acc1.len() - 1
                } else {
                    j0
                };
                let oc = acc1[j];
                let oc2 = add_pairs(
                    ObservedClassV { occurrences: oc.occurrences + 1, ..oc },
                    e,
                );
                acc1.update(j, oc2)
            }
        },
    }
}

/// The whole corpus fold: entities in order, starting from nothing.
pub open spec fn aggregate_spec(es: Seq<Seq<(Seq<char>, Seq<char>)>>) -> Seq<ObservedClassV>
    decreases es.len(),
{
    if es.len() == 0 {
        Seq::empty()
    } else {
        add_entity(aggregate_spec(es.drop_last()), es.last())
    }
}

// ---------------------------------------------------------------------------
// Characterizations of the index functions.
// ---------------------------------------------------------------------------

/// What `class_index` returns: the first position with the name, -1 when
/// the name is absent.
pub proof fn lemma_class_index_char(acc: Seq<ObservedClassV>, name: Seq<char>)
    ensures
        class_index(acc, name) == -1 ==> forall|k: int|
            0 <= k < acc.len() ==> acc[k].name != name,
        class_index(acc, name) >= 0 ==> 0 <= class_index(acc, name) < acc.len() && acc[class_index(
            acc,
            name,
        )].name == name,
        class_index(acc, name) >= 0 ==> forall|k: int|
            0 <= k < class_index(acc, name) ==> acc[k].name != name,
    decreases acc.len(),
{
    if acc.len() > 0 && acc[0].name != name {
        lemma_class_index_char(acc.skip(1), name);
        assert forall|k: int| 1 <= k < acc.len() implies acc.skip(1)[k - 1] == acc[k] by {}
    }
}

/// What `prop_index` returns.
pub proof fn lemma_prop_index_char(props: Seq<ObservedPropertyV>, name: Seq<char>)
    ensures
        prop_index(props, name) == -1 ==> forall|k: int|
            0 <= k < props.len() ==> props[k].name != name,
        prop_index(props, name) >= 0 ==> 0 <= prop_index(props, name) < props.len()
            && props[prop_index(props, name)].name == name,
        prop_index(props, name) >= 0 ==> forall|k: int|
            0 <= k < prop_index(props, name) ==> props[k].name != name,
    decreases props.len(),
{
    if props.len() > 0 && props[0].name != name {
        lemma_prop_index_char(props.skip(1), name);
        assert forall|k: int| 1 <= k < props.len() implies props.skip(1)[k - 1] == props[k] by {}
    }
}

/// Folding pairs into an accumulator never changes its name or count.
pub proof fn lemma_add_pairs_preserves(oc: ObservedClassV, pairs: Seq<(Seq<char>, Seq<char>)>)
    ensures
        add_pairs(oc, pairs).name == oc.name,
        add_pairs(oc, pairs).occurrences == oc.occurrences,
    decreases pairs.len(),
{
    if pairs.len() > 0 {
        lemma_add_pairs_preserves(oc, pairs.drop_last());
    }
}

// ---------------------------------------------------------------------------
// Corpus-level counting, and what the fold guarantees about it.
// ---------------------------------------------------------------------------

/// The entity carries this classname.
pub open spec fn has_class(e: Seq<(Seq<char>, Seq<char>)>, c: Seq<char>) -> bool {
    lookup_value(e, "classname"@) == Some(c)
}

/// How many entities of the corpus carry this classname.
pub open spec fn occurrences_of(es: Seq<Seq<(Seq<char>, Seq<char>)>>, c: Seq<char>) -> nat
    decreases es.len(),
{
    if es.len() == 0 {
        0
    } else {
        occurrences_of(es.drop_last(), c) + if has_class(es.last(), c) {
            1nat
        } else {
            0nat
        }
    }
}

/// How many pairs of one entity carry this key.
pub open spec fn pair_count(e: Seq<(Seq<char>, Seq<char>)>, p: Seq<char>) -> nat
    decreases e.len(),
{
    if e.len() == 0 {
        0
    } else {
        pair_count(e.drop_last(), p) + if e.last().0 == p {
            1nat
        } else {
            0nat
        }
    }
}

/// How many values the corpus holds for property `p` across the instances
/// of class `c`.
pub open spec fn value_count(
    es: Seq<Seq<(Seq<char>, Seq<char>)>>,
    c: Seq<char>,
    p: Seq<char>,
) -> nat
    decreases es.len(),
{
    if es.len() == 0 {
        0
    } else {
        value_count(es.drop_last(), c, p) + if has_class(es.last(), c) {
            pair_count(es.last(), p)
        } else {
            0
        }
    }
}

/// The recorded values of property `p` in a class accumulator, as a count.
pub open spec fn stored_count(oc: ObservedClassV, p: Seq<char>) -> int {
    let q = prop_index(oc.properties, p);
    if q >= 0 {
        oc.properties[q].values.len() as int
    } else {
        0
    }
}

/// Folding an entity's pairs adds, for each non-skipped key, exactly the
/// number of pairs carrying it.
proof fn lemma_add_pairs_values(
    oc: ObservedClassV,
    pairs: Seq<(Seq<char>, Seq<char>)>,
    p: Seq<char>,
)
    requires
        !skip_pair_key(p),
    ensures
        stored_count(add_pairs(oc, pairs), p) == stored_count(oc, p) + pair_count(pairs, p),
    decreases pairs.len(),
{
    if pairs.len() > 0 {
        lemma_add_pairs_values(oc, pairs.drop_last(), p);
        let oc1 = add_pairs(oc, pairs.drop_last());
        let oc2 = add_pair(oc1, pairs.last());
        let key = pairs.last().0;
        let val = pairs.last().1;
        lemma_prop_index_char(oc1.properties, p);
        let qp = prop_index(oc1.properties, p);
        if skip_pair_key(key) {
            assert(key != p);
            assert(oc2 == oc1);
        } else {
            lemma_prop_index_char(oc1.properties, key);
            let qk = prop_index(oc1.properties, key);
            lemma_prop_index_char(oc2.properties, p);
            let qp2 = prop_index(oc2.properties, p);
            if key == p {
                if qk < 0 {
                    // New entry for `p` appended at the end.
                    assert(oc2.properties == oc1.properties.push(
                        ObservedPropertyV { name: p, values: seq![val] },
                    ));
                    assert(oc2.properties[oc1.properties.len() as int].name == p);
                    assert(qp2 != -1);
                    assert forall|k: int|
                        0 <= k < oc1.properties.len() implies (#[trigger] oc2.properties[k]).name
                        != p by {
                        assert(oc2.properties[k] == oc1.properties[k]);
                    }
                    assert(qp2 == oc1.properties.len());
                    assert(stored_count(oc2, p) == 1);
                } else {
                    // Existing entry for `p` grows by one value.
                    assert(oc2.properties == oc1.properties.update(
                        qk,
                        ObservedPropertyV {
                            name: p,
                            values: oc1.properties[qk].values.push(val),
                        },
                    ));
                    assert(oc2.properties[qk].name == p);
                    assert(qp2 != -1);
                    assert forall|k: int| 0 <= k < qk implies oc2.properties[k].name != p by {
                        assert(oc2.properties[k] == oc1.properties[k]);
                    }
                    assert(qp2 == qk);
                    assert(stored_count(oc2, p) == oc1.properties[qk].values.len() + 1);
                }
            } else {
                // A different key: the entry for `p`, if any, is untouched.
                if qk < 0 {
                    assert(oc2.properties == oc1.properties.push(
                        ObservedPropertyV { name: key, values: seq![val] },
                    ));
                } else {
                    assert(oc1.properties[qk].name == key);
                    assert(oc2.properties == oc1.properties.update(
                        qk,
                        ObservedPropertyV {
                            name: key,
                            values: oc1.properties[qk].values.push(val),
                        },
                    ));
                }
                if qp < 0 {
                    assert forall|k: int|
                        0 <= k < oc2.properties.len() implies (#[trigger] oc2.properties[k]).name
                        != p by {
                        if k < oc1.properties.len() {
                            if qk >= 0 && k == qk {
                            } else {
                                assert(oc2.properties[k] == oc1.properties[k]);
                            }
                        }
                    }
                    assert(qp2 == -1);
                } else {
                    assert(oc1.properties[qp].name == p);
                    assert(qk != qp);
                    assert(oc2.properties[qp] == oc1.properties[qp]);
                    assert forall|k: int| 0 <= k < qp implies oc2.properties[k].name != p by {
                        if qk >= 0 && k == qk {
                        } else {
                            assert(oc2.properties[k] == oc1.properties[k]);
                        }
                    }
                    assert(qp2 == qp);
                    assert(stored_count(oc2, p) == stored_count(oc1, p));
                }
            }
        }
    }
}

/// What the corpus fold guarantees for every class and every non-skipped
/// property name: the accumulator entry of a class counts exactly its
/// instances, and its per-property value lists hold exactly the observed
/// values; a class with no entry was never observed.
pub proof fn lemma_aggregate_counts(
    es: Seq<Seq<(Seq<char>, Seq<char>)>>,
    c: Seq<char>,
    p: Seq<char>,
)
    requires
        c.len() > 0,
        !skip_pair_key(p),
    ensures
        ({
            let agg = aggregate_spec(es);
            let j = class_index(agg, c);
            &&& (j >= 0 ==> agg[j].occurrences == occurrences_of(es, c) && stored_count(
                agg[j],
                p,
            ) == value_count(es, c, p))
            &&& (j < 0 ==> occurrences_of(es, c) == 0 && value_count(es, c, p) == 0)
        }),
    decreases es.len(),
{
    if es.len() > 0 {
        lemma_aggregate_counts(es.drop_last(), c, p);
        let acc = aggregate_spec(es.drop_last());
        let e = es.last();
        let agg = aggregate_spec(es);
        assert(agg == add_entity(acc, e));
        lemma_class_index_char(acc, c);
        lemma_class_index_char(agg, c);
        let ci = class_index(acc, c);
        match lookup_value(e, "classname"@) {
            None => {
                assert(!has_class(e, c));
                assert(agg == acc);
            },
            Some(cn) => {
                if cn.len() == 0 {
                    assert(!has_class(e, c));
                    assert(agg == acc);
                } else {
                    let j0 = class_index(acc, cn);
                    lemma_class_index_char(acc, cn);
                    let acc1 = if j0 < 0 {
                        acc.push(
                            ObservedClassV { name: cn, occurrences: 0, properties: Seq::empty() },
                        )
                    } else {
                        acc
                    };
                    let j = if j0 < 0 {
                        acc1.len() - 1
                    } else {
                        j0
                    };
                    let oc1 = ObservedClassV {
                        occurrences: acc1[j].occurrences + 1,
                        ..acc1[j]
                    };
                    let oc2 = add_pairs(oc1, e);
                    lemma_add_pairs_preserves(oc1, e);
                    assert(agg == acc1.update(j, oc2));
                    assert(oc2.name == cn);
                    if cn == c {
                        assert(has_class(e, c));
                        // The touched entry is the entry of `c`.
                        assert(agg[j].name == c);
                        assert forall|k: int| 0 <= k < j implies agg[k].name != c by {
                            assert(agg[k] == acc[k]);
                        }
                        assert(class_index(agg, c) == j);
                        lemma_add_pairs_values(oc1, e, p);
                        if j0 < 0 {
                            assert(occurrences_of(es.drop_last(), c) == 0);
                            assert(value_count(es.drop_last(), c, p) == 0);
                            assert(oc1.occurrences == 1);
                            assert(prop_index(oc1.properties, p) == -1);
                            assert(stored_count(oc1, p) == 0);
                        } else {
                            assert(acc1[j] == acc[ci]);
                            assert(stored_count(oc1, p) == stored_count(acc[ci], p));
                        }
                    } else {
                        assert(!has_class(e, c));
                        // The touched entry keeps a name different from `c`.
                        if ci < 0 {
                            assert forall|k: int| 0 <= k < agg.len() implies agg[k].name
                                != c by {
                                if k == j {
                                } else if k < acc.len() {
                                    assert(agg[k] == acc[k]);
                                }
                            }
                            assert(class_index(agg, c) == -1);
                        } else {
                            assert(acc[ci].name == c);
                            assert(j != ci);
                            assert(agg[ci] == acc[ci]);
                            assert forall|k: int| 0 <= k < ci implies agg[k].name != c by {
                                if k == j {
                                } else {
                                    assert(agg[k] == acc[k]);
                                }
                            }
                            assert(class_index(agg, c) == ci);
                        }
                    }
                }
            },
        }
    }
}

// ---------------------------------------------------------------------------
// Well-formedness of the accumulators.
// ---------------------------------------------------------------------------

/// The property lists of one accumulator are a mapping: names are unique,
/// and none is a skipped key.
pub open spec fn class_props_wf(oc: ObservedClassV) -> bool {
    &&& forall|q1: int, q2: int|
        0 <= q1 < q2 < oc.properties.len() ==> (#[trigger] oc.properties[q1]).name != (
        #[trigger] oc.properties[q2]).name
    &&& forall|q: int|
        0 <= q < oc.properties.len() ==> !skip_pair_key((#[trigger] oc.properties[q]).name)
}

/// The accumulators are a mapping by classname: names are unique and
/// non-empty, and every entry's property lists are a mapping too.
pub open spec fn aggregate_wf(acc: Seq<ObservedClassV>) -> bool {
    &&& forall|j1: int, j2: int|
        0 <= j1 < j2 < acc.len() ==> (#[trigger] acc[j1]).name != (#[trigger] acc[j2]).name
    &&& forall|j: int| 0 <= j < acc.len() ==> (#[trigger] acc[j]).name.len() > 0
    &&& forall|j: int| 0 <= j < acc.len() ==> class_props_wf(#[trigger] acc[j])
}

proof fn lemma_add_pair_wf(oc: ObservedClassV, p: (Seq<char>, Seq<char>))
    requires
        class_props_wf(oc),
    ensures
        class_props_wf(add_pair(oc, p)),
{
    if !skip_pair_key(p.0) {
        lemma_prop_index_char(oc.properties, p.0);
        let j = prop_index(oc.properties, p.0);
        let oc2 = add_pair(oc, p);
        if j < 0 {
            assert forall|q1: int, q2: int|
                0 <= q1 < q2 < oc2.properties.len() implies (#[trigger] oc2.properties[q1]).name
                != (#[trigger] oc2.properties[q2]).name by {
                if q2 < oc.properties.len() {
                    assert(oc2.properties[q1] == oc.properties[q1]);
                    assert(oc2.properties[q2] == oc.properties[q2]);
                } else {
                    assert(oc2.properties[q1] == oc.properties[q1]);
                    assert(oc2.properties[q2].name == p.0);
                }
            }
        } else {
            assert(oc.properties[j].name == p.0);
            assert forall|q1: int, q2: int|
                0 <= q1 < q2 < oc2.properties.len() implies (#[trigger] oc2.properties[q1]).name
                != (#[trigger] oc2.properties[q2]).name by {
                assert(oc2.properties[q1].name == oc.properties[q1].name);
                assert(oc2.properties[q2].name == oc.properties[q2].name);
            }
        }
    }
}

proof fn lemma_add_pairs_wf(oc: ObservedClassV, pairs: Seq<(Seq<char>, Seq<char>)>)
    requires
        class_props_wf(oc),
    ensures
        class_props_wf(add_pairs(oc, pairs)),
    decreases pairs.len(),
{
    if pairs.len() > 0 {
        lemma_add_pairs_wf(oc, pairs.drop_last());
        lemma_add_pair_wf(add_pairs(oc, pairs.drop_last()), pairs.last());
    }
}

/// The corpus fold yields well-formed accumulators: the output is a mapping
/// by classname, and each entry a mapping by property name.
pub proof fn lemma_aggregate_wf(es: Seq<Seq<(Seq<char>, Seq<char>)>>)
    ensures
        aggregate_wf(aggregate_spec(es)),
    decreases es.len(),
{
    if es.len() > 0 {
        lemma_aggregate_wf(es.drop_last());
        let acc = aggregate_spec(es.drop_last());
        let e = es.last();
        let agg = aggregate_spec(es);
        assert(agg == add_entity(acc, e));
        match lookup_value(e, "classname"@) {
            None => {},
            Some(cn) => {
                if cn.len() == 0 {
                } else {
                    let j0 = class_index(acc, cn);
                    lemma_class_index_char(acc, cn);
                    let acc1 = if j0 < 0 {
                        acc.push(
                            ObservedClassV { name: cn, occurrences: 0, properties: Seq::empty() },
                        )
                    } else {
                        acc
                    };
                    let j = if j0 < 0 {
                        acc1.len() - 1
                    } else {
                        j0
                    };
                    let oc1 = ObservedClassV {
                        occurrences: acc1[j].occurrences + 1,
                        ..acc1[j]
                    };
                    assert(class_props_wf(oc1)) by {
                        if j0 < 0 {
                            assert(oc1.properties =~= Seq::<ObservedPropertyV>::empty());
                        }
                    }
                    lemma_add_pairs_wf(oc1, e);
                    lemma_add_pairs_preserves(oc1, e);
                    assert forall|j1: int, j2: int|
                        0 <= j1 < j2 < agg.len() implies (#[trigger] agg[j1]).name != (
                    #[trigger] agg[j2]).name by {
                        if j1 != j && j2 != j {
                            assert(agg[j1] == acc1[j1]);
                            assert(agg[j2] == acc1[j2]);
                        } else {
                            assert(agg[j].name == cn);
                        }
                    }
                }
            },
        }
    }
}

// ---------------------------------------------------------------------------
// Exec implementation.
// ---------------------------------------------------------------------------

impl Entity {
    /// Value of the first pair with the given key, if any.
    pub fn prop(&self, key: &str) -> (r: Option<String>)
        ensures
            match r {
                Some(v) => lookup_value(self@, key@) == Some(v@),
                None => lookup_value(self@, key@) is None,
            },
    {
        let mut i: usize = 0;
        let n: usize = self.props.len();
        assert(self@.skip(0) =~= self@);
        while i < n
            invariant
                i <= n,
                n == self.props@.len(),
                lookup_value(self@, key@) == lookup_value(self@.skip(i as int), key@),
            decreases n - i,
        {
            proof {
                assert(self@.skip(i as int)[0] == self@[i as int]);
                assert(self@.skip(i as int).skip(1) =~= self@.skip(i + 1 as int));
            }
            if crate::strutil::str_eq(self.props[i].0.as_str(), key) {
                return Some(self.props[i].1.clone());
            }
            i = i + 1;
        }
        assert(self@.skip(n as int) =~= Seq::<(Seq<char>, Seq<char>)>::empty());
        None
    }
}

/// Aggregate a decoded entity corpus into per-class observations, exactly
/// as the fold `aggregate_spec` describes.
pub fn aggregate_entities(entities: &Vec<Entity>) -> (r: Vec<ObservedClass>)
    ensures
        r@.map_values(|c: ObservedClass| c@) == aggregate_spec(
            entities@.map_values(|e: Entity| e@),
        ),
{
    let ghost es = entities@.map_values(|e: Entity| e@);
    let mut classes: Vec<ObservedClass> = Vec::new();
    let n: usize = entities.len();
    let mut i: usize = 0;
    assert(classes@.map_values(|c: ObservedClass| c@) =~= aggregate_spec(es.take(0)));
    while i < n
        invariant
            i <= n,
            n == entities@.len(),
            es == entities@.map_values(|e: Entity| e@),
            classes@.map_values(|c: ObservedClass| c@) == aggregate_spec(es.take(i as int)),
        decreases n - i,
    {
        let ghost acc = aggregate_spec(es.take(i as int));
        proof {
            assert(es.take(i + 1 as int).drop_last() =~= es.take(i as int));
            assert(es.take(i + 1 as int).last() == es[i as int]);
        }
        let ent = &entities[i];
        assert(ent@ == es[i as int]);
        let cname_opt = ent.prop("classname");
        match cname_opt {
            None => {
                assert(add_entity(acc, es[i as int]) == acc);
            },
            Some(cname) => {
                if cname.as_str().unicode_len() == 0 {
                    assert(add_entity(acc, es[i as int]) == acc);
                } else {
                    proof {
                        lemma_agg_occurrences_le(es.take(i as int));
                        assert forall|k: int|
                            0 <= k < classes@.len() implies (#[trigger] classes@[k])@.occurrences
                            < usize::MAX by {
                            assert(classes@.map_values(|c: ObservedClass| c@)[k] == classes@[k]@);
                            assert(acc[k].occurrences <= es.take(i as int).len());
                        }
                    }
                    add_one_entity(&mut classes, ent, &cname);
                    proof {
                        assert(classes@.map_values(|c: ObservedClass| c@) == add_entity(
                            acc,
                            es[i as int],
                        ));
                    }
                }
            },
        }
        i = i + 1;
    }
    assert(es.take(n as int) =~= es);
    classes
}

/// Fold one entity, whose classname is `cname` (non-empty), into the
/// accumulated classes.
fn add_one_entity(classes: &mut Vec<ObservedClass>, ent: &Entity, cname: &String)
    requires
        lookup_value(ent@, "classname"@) == Some(cname@),
        cname@.len() > 0,
        forall|k: int|
            0 <= k < old(classes)@.len() ==> (#[trigger] old(classes)@[k])@.occurrences
                < usize::MAX,
    ensures
        final(classes)@.map_values(|c: ObservedClass| c@) == add_entity(
            old(classes)@.map_values(|c: ObservedClass| c@),
            ent@,
        ),
{
    let ghost acc = classes@.map_values(|c: ObservedClass| c@);
    let n: usize = classes.len();
    let mut j: usize = 0;
    while j < n && !crate::strutil::str_eq(classes[j].name.as_str(), cname.as_str())
        invariant
            j <= n,
            n == classes@.len(),
            acc == classes@.map_values(|c: ObservedClass| c@),
            forall|k: int| 0 <= k < j ==> acc[k].name != cname@,
        decreases n - j,
    {
        assert(acc[j as int].name == classes@[j as int]@.name);
        j = j + 1;
    }
    proof {
        lemma_class_index_char(acc, cname@);
        if j < n {
            assert(acc[j as int].name == cname@);
            assert(class_index(acc, cname@) == j as int);
        } else {
            assert(class_index(acc, cname@) == -1);
        }
    }
    let existed: bool = j < n;
    let ghost pre = classes@;
    let mut oc: ObservedClass = if existed {
        classes.remove(j)
    } else {
        ObservedClass { name: cname.clone(), occurrences: 0, properties: Vec::new() }
    };
    let ghost j0 = class_index(acc, cname@);
    let ghost acc1 = if j0 < 0 {
        acc.push(ObservedClassV { name: cname@, occurrences: 0, properties: Seq::empty() })
    } else {
        acc
    };
    proof {
        if existed {
            assert(acc[j as int] == pre.map_values(|c: ObservedClass| c@)[j as int]);
            assert(acc[j as int] == pre[j as int]@);
        } else {
            assert(oc@.properties =~= Seq::<ObservedPropertyV>::empty());
        }
    }
    assert(oc@ == acc1[j as int]);
    oc.occurrences = oc.occurrences + 1;
    let ghost oc1 = ObservedClassV { occurrences: acc1[j as int].occurrences + 1, ..acc1[j as int] };
    assert(oc@ == oc1);
    add_entity_pairs(&mut oc, ent);
    assert(oc@ == add_pairs(oc1, ent@));
    if existed {
        classes.insert(j, oc);
        proof {
            assert(classes@.map_values(|c: ObservedClass| c@) =~= acc1.update(
                j as int,
                add_pairs(oc1, ent@),
            ));
        }
    } else {
        classes.push(oc);
        proof {
            assert(classes@.map_values(|c: ObservedClass| c@) =~= acc1.update(
                j as int,
                add_pairs(oc1, ent@),
            ));
        }
    }
}

/// No class is observed more often than there are entities.
pub proof fn lemma_agg_occurrences_le(es: Seq<Seq<(Seq<char>, Seq<char>)>>)
    ensures
        forall|k: int|
            0 <= k < aggregate_spec(es).len() ==> (#[trigger] aggregate_spec(es)[k]).occurrences
                <= es.len(),
    decreases es.len(),
{
    if es.len() > 0 {
        lemma_agg_occurrences_le(es.drop_last());
        let acc = aggregate_spec(es.drop_last());
        let agg = aggregate_spec(es);
        assert(agg == add_entity(acc, es.last()));
        assert forall|k: int| 0 <= k < agg.len() implies (#[trigger] agg[k]).occurrences
            <= es.len() by {
            match lookup_value(es.last(), "classname"@) {
                None => {},
                Some(c) => {
                    if c.len() == 0 {
                    } else {
                        let j0 = class_index(acc, c);
                        let acc1 = if j0 < 0 {
                            acc.push(
                                ObservedClassV {
                                    name: c,
                                    occurrences: 0,
                                    properties: Seq::empty(),
                                },
                            )
                        } else {
                            acc
                        };
                        let j = if j0 < 0 {
                            acc1.len() - 1
                        } else {
                            j0
                        };
                        lemma_class_index_char(acc, c);
                        lemma_add_pairs_preserves(
                            ObservedClassV { occurrences: acc1[j].occurrences + 1, ..acc1[j] },
                            es.last(),
                        );
                    }
                },
            }
        }
    }
}

/// Fold every pair of the entity, in order, into one class accumulator.
fn add_entity_pairs(oc: &mut ObservedClass, ent: &Entity)
    ensures
        final(oc)@ == add_pairs(old(oc)@, ent@),
{
    let ghost oc0 = oc@;
    let n: usize = ent.props.len();
    let mut q: usize = 0;
    assert(add_pairs(oc0, ent@.take(0)) == oc0) by {
        assert(ent@.take(0) =~= Seq::<(Seq<char>, Seq<char>)>::empty());
    }
    while q < n
        invariant
            q <= n,
            n == ent.props@.len(),
            n == ent@.len(),
            oc@ == add_pairs(oc0, ent@.take(q as int)),
        decreases n - q,
    {
        proof {
            assert(ent@.take(q + 1 as int).drop_last() =~= ent@.take(q as int));
            assert(ent@.take(q + 1 as int).last() == ent@[q as int]);
        }
        let ghost before = oc@;
        let key_is_skipped: bool = crate::strutil::str_eq(ent.props[q].0.as_str(), "classname")
            || crate::strutil::str_eq(ent.props[q].0.as_str(), "hammerid") || ent.props[
            q].0.as_str().unicode_len() == 0;
        if !key_is_skipped {
            add_value(oc, &ent.props[q].0, &ent.props[q].1);
            assert(oc@ == add_pair(before, ent@[q as int]));
        } else {
            assert(add_pair(before, ent@[q as int]) == before);
        }
        q = q + 1;
    }
    assert(ent@.take(n as int) =~= ent@);
}

/// Append one observed value under its property name (which is not one of
/// the skipped keys).
fn add_value(oc: &mut ObservedClass, key: &String, value: &String)
    requires
        !skip_pair_key(key@),
    ensures
        final(oc)@ == add_pair(old(oc)@, (key@, value@)),
{
    let ghost props0 = oc@.properties;
    let n: usize = oc.properties.len();
    let mut p: usize = 0;
    while p < n && !crate::strutil::str_eq(oc.properties[p].name.as_str(), key.as_str())
        invariant
            p <= n,
            n == oc.properties@.len(),
            oc@ == old(oc)@,
            props0 == oc@.properties,
            forall|k: int| 0 <= k < p ==> props0[k].name != key@,
        decreases n - p,
    {
        assert(props0[p as int].name == oc.properties@[p as int]@.name);
        p = p + 1;
    }
    proof {
        lemma_prop_index_char(props0, key@);
        if p < n {
            assert(props0[p as int].name == key@);
            assert(prop_index(props0, key@) == p as int);
        } else {
            assert(prop_index(props0, key@) == -1);
        }
    }
    if p < n {
        let mut entry: ObservedProperty = oc.properties.remove(p);
        entry.values.push(value.clone());
        let ghost updated = ObservedPropertyV {
            name: props0[p as int].name,
            values: props0[p as int].values.push(value@),
        };
        assert(entry@.values =~= updated.values);
        assert(entry@ == updated);
        oc.properties.insert(p, entry);
        proof {
            assert(oc@.properties =~= props0.update(p as int, updated));
        }
    } else {
        let mut values: Vec<String> = Vec::new();
        values.push(value.clone());
        let entry = ObservedProperty { name: key.clone(), values };
        assert(entry@.values =~= seq![value@]);
        oc.properties.push(entry);
        proof {
            assert(oc@.properties =~= props0.push(
                ObservedPropertyV { name: key@, values: seq![value@] },
            ));
        }
    }
}

} // verus!
