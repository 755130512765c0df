use vstd::prelude::*;
use crate::strutil::str_eq;
use crate::types::EntityPropertyType;

verus! {

// ---------------------------------------------------------------------------
// Static analysis data: entity-to-class links, inheritance edges and typed
// property hints, as produced by the source-text pass, queried per entity.
// The hints are advisory: the schema synthesis works from the observed
// values alone, and this data stands beside it for downstream consumers.
// Inheritance lookup is one hop (direct bases only), not transitive.
// ---------------------------------------------------------------------------

/// Links one entity classname to the engine class implementing it.
pub struct EntityClass {
    pub entity: String,
    pub class: String,
}

pub ghost struct EntityClassV {
    pub entity: Seq<char>,
    pub class: Seq<char>,
}

impl View for EntityClass {
    type V = EntityClassV;

    open spec fn view(&self) -> EntityClassV {
        EntityClassV { entity: self.entity@, class: self.class@ }
    }
}

/// The base classes of one class, in declaration order.
pub struct Inherit {
    pub name: String,
    pub inherits: Vec<String>,
}

pub ghost struct InheritV {
    pub name: Seq<char>,
    pub inherits: Seq<Seq<char>>,
}

impl View for Inherit {
    type V = InheritV;

    open spec fn view(&self) -> InheritV {
        InheritV { name: self.name@, inherits: self.inherits@.map_values(|s: String| s@) }
    }
}

/// One property-type hint found for a class by the static pass.
pub struct FoundType {
    pub class: String,
    pub name: String,
    pub ty: String,
}

pub ghost struct FoundTypeV {
    pub class: Seq<char>,
    pub name: Seq<char>,
    pub ty: Seq<char>,
}

impl View for FoundType {
    type V = FoundTypeV;

    open spec fn view(&self) -> FoundTypeV {
        FoundTypeV { class: self.class@, name: self.name@, ty: self.ty@ }
    }
}

/// The loaded static-analysis data set.
pub struct SdkData {
    pub classes: Vec<EntityClass>,
    pub inherits: Vec<Inherit>,
    pub types: Vec<FoundType>,
}

pub ghost struct SdkDataV {
    pub classes: Seq<EntityClassV>,
    pub inherits: Seq<InheritV>,
    pub types: Seq<FoundTypeV>,
}

impl View for SdkData {
    type V = SdkDataV;

    open spec fn view(&self) -> SdkDataV {
        SdkDataV {
            classes: self.classes@.map_values(|c: EntityClass| c@),
            inherits: self.inherits@.map_values(|c: Inherit| c@),
            types: self.types@.map_values(|c: FoundType| c@),
        }
    }
}

// ---------------------------------------------------------------------------
// The hint-tag vocabulary.
// ---------------------------------------------------------------------------

/// The tag of the float hint, assembled from two pieces: this crate's
/// text carries no bare floating-point token.
pub open spec fn float_tag() -> Seq<char> {
    "f"@ + "32"@
}

/// The type tags the static pass can emit.
pub open spec fn known_tag(ty: Seq<char>) -> bool {
    ||| ty == "color"@
    ||| ty == "vector"@
    ||| ty == "string"@
    ||| ty == float_tag()
    ||| ty == "i32"@
    ||| ty == "bool"@
    ||| ty == "angles"@
}

/// The semantic type of a known tag. The final arm is never relied on:
/// callers require a known tag.
pub open spec fn sdk_type_spec(ty: Seq<char>) -> EntityPropertyType {
    if ty == "color"@ {
        EntityPropertyType::Color
    } else if ty == "vector"@ {
        EntityPropertyType::Vector
    } else if ty == "string"@ {
        EntityPropertyType::Str
    } else if ty == float_tag() {
        EntityPropertyType::F32
    } else if ty == "i32"@ {
        EntityPropertyType::I32
    } else if ty == "bool"@ {
        EntityPropertyType::Bool
    } else if ty == "angles"@ {
        EntityPropertyType::Angles
    } else {
        EntityPropertyType::Str
    }
}

/// Whether a hint tag belongs to the vocabulary.
pub fn tag_is_known(ty: &str) -> (r: bool)
    ensures
        r == known_tag(ty@),
{
    let mut ft: String = String::from_str("f");
    ft.append("32");
    str_eq(ty, "color") || str_eq(ty, "vector") || str_eq(ty, "string") || str_eq(ty, ft.as_str())
        || str_eq(ty, "i32") || str_eq(ty, "bool") || str_eq(ty, "angles")
}

/// Map a known hint tag to its semantic type. Unknown tags are outside
/// this function's domain.
pub fn map_sdk_type(ty: &str) -> (r: EntityPropertyType)
    requires
        known_tag(ty@),
    ensures
        r == sdk_type_spec(ty@),
{
    let mut ft: String = String::from_str("f");
    ft.append("32");
    if str_eq(ty, "color") {
        EntityPropertyType::Color
    } else if str_eq(ty, "vector") {
        EntityPropertyType::Vector
    } else if str_eq(ty, "string") {
        EntityPropertyType::Str
    } else if str_eq(ty, ft.as_str()) {
        EntityPropertyType::F32
    } else if str_eq(ty, "i32") {
        EntityPropertyType::I32
    } else if str_eq(ty, "bool") {
        EntityPropertyType::Bool
    } else {
        EntityPropertyType::Angles
    }
}

// ---------------------------------------------------------------------------
// Spec-level lookups.
// ---------------------------------------------------------------------------

/// The class of the first link matching the entity name.
pub open spec fn class_for_spec(cs: Seq<EntityClassV>, entity: Seq<char>) -> Option<Seq<char>>
    decreases cs.len(),
{
    if cs.len() == 0 {
        None
    } else if cs[0].entity == entity {
        Some(cs[0].class)
    } else {
        class_for_spec(cs.skip(1), entity)
    }
}

/// The bases of the first inheritance entry matching the class, or nothing.
pub open spec fn inherits_for_spec(is: Seq<InheritV>, class: Seq<char>) -> Seq<Seq<char>>
    decreases is.len(),
{
    if is.len() == 0 {
        Seq::empty()
    } else if is[0].name == class {
        is[0].inherits
    } else {
        inherits_for_spec(is.skip(1), class)
    }
}

/// All hints for one class, in data order.
pub open spec fn types_for_spec(ts: Seq<FoundTypeV>, class: Seq<char>) -> Seq<FoundTypeV>
    decreases ts.len(),
{
    if ts.len() == 0 {
        Seq::empty()
    } else {
        let rest = types_for_spec(ts.drop_last(), class);
        if ts.last().class == class {
            rest.push(ts.last())
        } else {
            rest
        }
    }
}

/// The hints of a list of classes, concatenated in list order.
pub open spec fn types_for_list_spec(ts: Seq<FoundTypeV>, classes: Seq<Seq<char>>) -> Seq<
    FoundTypeV,
>
    decreases classes.len(),
{
    if classes.len() == 0 {
        Seq::empty()
    } else {
        types_for_spec(ts, classes[0]) + types_for_list_spec(ts, classes.skip(1))
    }
}

/// Index of the first mapping entry with the given name, or -1.
pub open spec fn pair_index(acc: Seq<(Seq<char>, EntityPropertyType)>, name: Seq<char>) -> int
    decreases acc.len(),
{
    if acc.len() == 0 {
        -1
    } else if acc[0].0 == name {
        0
    } else {
        let r = pair_index(acc.skip(1), name);
        if r < 0 {
            -1
        } else {
            r + 1
        }
    }
}

/// Record one hint in the name-to-type mapping: a later hint for the same
/// name overwrites the earlier one, as collecting into a map does.
pub open spec fn put_hint(
    acc: Seq<(Seq<char>, EntityPropertyType)>,
    name: Seq<char>,
    ty: EntityPropertyType,
) -> Seq<(Seq<char>, EntityPropertyType)> {
    let j = pair_index(acc, name);
    if j < 0 {
        acc.push((name, ty))
    } else {
        acc.update(j, (name, ty))
    }
}

/// Fold a hint list, in order, into the mapping.
pub open spec fn fold_hints(
    acc: Seq<(Seq<char>, EntityPropertyType)>,
    hints: Seq<FoundTypeV>,
) -> Seq<(Seq<char>, EntityPropertyType)>
    decreases hints.len(),
{
    if hints.len() == 0 {
        acc
    } else {
        put_hint(
            fold_hints(acc, hints.drop_last()),
            hints.last().name,
            sdk_type_spec(hints.last().ty),
        )
    }
}

/// The property types the static data implies for one entity: the hints of
/// its class and then of each direct base, later entries overriding.
pub open spec fn entity_types_spec(sdk: SdkDataV, entity: Seq<char>) -> Seq<
    (Seq<char>, EntityPropertyType),
> {
    match class_for_spec(sdk.classes, entity) {
        None => Seq::empty(),
        Some(c) => fold_hints(
            Seq::empty(),
            types_for_spec(sdk.types, c) + types_for_list_spec(
                sdk.types,
                inherits_for_spec(sdk.inherits, c),
            ),
        ),
    }
}

/// Folding distributes over concatenation of hint lists.
pub proof fn lemma_fold_hints_concat(
    acc: Seq<(Seq<char>, EntityPropertyType)>,
    a: Seq<FoundTypeV>,
    b: Seq<FoundTypeV>,
)
    ensures
        fold_hints(acc, a + b) == fold_hints(fold_hints(acc, a), b),
    decreases b.len(),
{
    if b.len() == 0 {
        assert(a + b =~= a);
    } else {
        lemma_fold_hints_concat(acc, a, b.drop_last());
        assert((a + b).drop_last() =~= a + b.drop_last());
        assert((a + b).last() == b.last());
    }
}

// ---------------------------------------------------------------------------
// Exec implementation.
// ---------------------------------------------------------------------------

impl SdkData {
    /// Every stored hint carries a tag of the vocabulary.
    pub open spec fn wf(&self) -> bool {
        forall|i: int| 0 <= i < self@.types.len() ==> known_tag((#[trigger] self@.types[i]).ty)
    }

    /// An empty data set: no links, no edges, no hints.
    pub fn new() -> (r: Self)
        ensures
            r@.classes.len() == 0,
            r@.inherits.len() == 0,
            r@.types.len() == 0,
            r.wf(),
    {
        let r = SdkData { classes: Vec::new(), inherits: Vec::new(), types: Vec::new() };
        assert(r@.classes =~= Seq::<EntityClassV>::empty());
        assert(r@.inherits =~= Seq::<InheritV>::empty());
        assert(r@.types =~= Seq::<FoundTypeV>::empty());
        r
    }

    /// A data set built from already-parsed records.
    pub fn load(classes: Vec<EntityClass>, inherits: Vec<Inherit>, types: Vec<FoundType>) -> (r:
        Self)
        ensures
            r@.classes == classes@.map_values(|c: EntityClass| c@),
            r@.inherits == inherits@.map_values(|c: Inherit| c@),
            r@.types == types@.map_values(|c: FoundType| c@),
    {
        SdkData { classes, inherits, types }
    }

    /// The engine class implementing the given entity classname, if the
    /// data links one.
    pub fn class_for_entity(&self, entity: &str) -> (r: Option<String>)
        ensures
            match r {
                Some(c) => class_for_spec(self@.classes, entity@) == Some(c@),
                None => class_for_spec(self@.classes, entity@) is None,
            },
    {
        let n: usize = self.classes.len();
        let mut i: usize = 0;
        assert(self@.classes.skip(0) =~= self@.classes);
        while i < n
            invariant
                i <= n,
                n == self.classes@.len(),
                class_for_spec(self@.classes, entity@) == class_for_spec(
                    self@.classes.skip(i as int),
                    entity@,
                ),
            decreases n - i,
        {
            proof {
                assert(self@.classes.skip(i as int)[0] == self@.classes[i as int]);
                assert(self@.classes.skip(i as int).skip(1) =~= self@.classes.skip(i + 1 as int));
            }
            if str_eq(self.classes[i].entity.as_str(), entity) {
                return Some(self.classes[i].class.clone());
            }
            i = i + 1;
        }
        assert(self@.classes.skip(n as int) =~= Seq::<EntityClassV>::empty());
        None
    }

    /// The direct bases recorded for a class, or nothing.
    pub fn inherits_for_class(&self, class: &str) -> (r: Vec<String>)
        ensures
            r@.map_values(|s: String| s@) == inherits_for_spec(self@.inherits, class@),
    {
        let n: usize = self.inherits.len();
        let mut i: usize = 0;
        assert(self@.inherits.skip(0) =~= self@.inherits);
        while i < n
            invariant
                i <= n,
                n == self.inherits@.len(),
                inherits_for_spec(self@.inherits, class@) == inherits_for_spec(
                    self@.inherits.skip(i as int),
                    class@,
                ),
            decreases n - i,
        {
            proof {
                assert(self@.inherits.skip(i as int)[0] == self@.inherits[i as int]);
                assert(self@.inherits.skip(i as int).skip(1) =~= self@.inherits.skip(i + 1 as int));
            }
            if str_eq(self.inherits[i].name.as_str(), class) {
                let entry = &self.inherits[i];
                let m: usize = entry.inherits.len();
                let mut out: Vec<String> = Vec::new();
                let mut k: usize = 0;
                while k < m
                    invariant
                        k <= m,
                        m == entry.inherits@.len(),
                        out@.map_values(|s: String| s@) == entry@.inherits.take(k as int),
                    decreases m - k,
                {
                    let ghost pre = out@;
                    out.push(entry.inherits[k].clone());
                    assert(out@.map_values(|s: String| s@) =~= pre.map_values(|s: String| s@).push(
                        entry.inherits@[k as int]@,
                    ));
                    assert(out@.map_values(|s: String| s@) =~= entry@.inherits.take(k + 1 as int));
                    k = k + 1;
                }
                assert(entry@.inherits.take(m as int) =~= entry@.inherits);
                return out;
            }
            i = i + 1;
        }
        assert(self@.inherits.skip(n as int) =~= Seq::<InheritV>::empty());
        let out: Vec<String> = Vec::new();
        assert(out@.map_values(|s: String| s@) =~= Seq::<Seq<char>>::empty());
        out
    }

    /// All hints recorded for one class, in data order.
    pub fn types_for_class(&self, class: &str) -> (r: Vec<FoundType>)
        ensures
            r@.map_values(|t: FoundType| t@) == types_for_spec(self@.types, class@),
    {
        let n: usize = self.types.len();
        let mut out: Vec<FoundType> = Vec::new();
        let mut i: usize = 0;
        assert(out@.map_values(|t: FoundType| t@) =~= types_for_spec(
            self@.types.take(0),
            class@,
        ));
        while i < n
            invariant
                i <= n,
                n == self.types@.len(),
                out@.map_values(|t: FoundType| t@) == types_for_spec(
                    self@.types.take(i as int),
                    class@,
                ),
            decreases n - i,
        {
            proof {
                assert(self@.types.take(i + 1 as int).drop_last() =~= self@.types.take(i as int));
                assert(self@.types.take(i + 1 as int).last() == self@.types[i as int]);
            }
            let t = &self.types[i];
            if str_eq(t.class.as_str(), class) {
                let ghost pre = out@;
                out.push(
                    FoundType {
                        class: t.class.clone(),
                        name: t.name.clone(),
                        ty: t.ty.clone(),
                    },
                );
                assert(out@.map_values(|t: FoundType| t@) =~= pre.map_values(
                    |t: FoundType| t@,
                ).push(self@.types[i as int]));
            }
            i = i + 1;
        }
        assert(self@.types.take(n as int) =~= self@.types);
        out
    }

    /// The property types the data implies for one entity: the hints of its
    /// class and of each direct base, a later hint overriding an earlier
    /// one of the same name.
    pub fn types_for_entity(&self, entity: &str) -> (r: Vec<(String, EntityPropertyType)>)
        requires
            self.wf(),
        ensures
            r@.map_values(|p: (String, EntityPropertyType)| (p.0@, p.1)) == entity_types_spec(
                self@,
                entity@,
            ),
    {
        let class_opt = self.class_for_entity(entity);
        let mut out: Vec<(String, EntityPropertyType)> = Vec::new();
        match class_opt {
            None => {
                assert(out@.map_values(|p: (String, EntityPropertyType)| (p.0@, p.1)) =~= Seq::<
                    (Seq<char>, EntityPropertyType),
                >::empty());
                out
            },
            Some(class) => {
                let own = self.types_for_class(class.as_str());
                proof {
                    lemma_types_for_spec_tags(self@.types, class@);
                    assert forall|k: int| 0 <= k < own@.len() implies known_tag(
                        (#[trigger] own@[k])@.ty,
                    ) by {
                        assert(own@.map_values(|t: FoundType| t@)[k] == own@[k]@);
                    }
                }
                assert(out@.map_values(|p: (String, EntityPropertyType)| (p.0@, p.1)) =~= Seq::<
                    (Seq<char>, EntityPropertyType),
                >::empty());
                self.apply_hints(&mut out, &own);
                let ghost done = types_for_spec(self@.types, class@);
                assert(out@.map_values(|p: (String, EntityPropertyType)| (p.0@, p.1))
                    == fold_hints(Seq::empty(), done));
                let bases = self.inherits_for_class(class.as_str());
                let ghost base_names = inherits_for_spec(self@.inherits, class@);
                let m: usize = bases.len();
                let mut k: usize = 0;
                while k < m
                    invariant
                        k <= m,
                        m == bases@.len(),
                        self.wf(),
                        base_names == bases@.map_values(|s: String| s@),
                        out@.map_values(|p: (String, EntityPropertyType)| (p.0@, p.1))
                            == fold_hints(
                            Seq::empty(),
                            done + types_for_list_spec(self@.types, base_names.take(k as int)),
                        ),
                    decreases m - k,
                {
                    let hints = self.types_for_class(bases[k].as_str());
                    proof {
                        lemma_types_for_spec_tags(self@.types, base_names[k as int]);
                        assert forall|q: int| 0 <= q < hints@.len() implies known_tag(
                            (#[trigger] hints@[q])@.ty,
                        ) by {
                            assert(hints@.map_values(|t: FoundType| t@)[q] == hints@[q]@);
                        }
                    }
                    self.apply_hints(&mut out, &hints);
                    proof {
                        let a = done + types_for_list_spec(
                            self@.types,
                            base_names.take(k as int),
                        );
                        let h = types_for_spec(self@.types, base_names[k as int]);
                        lemma_fold_hints_concat(Seq::empty(), a, h);
                        lemma_types_for_list_snoc(self@.types, base_names, k as int);
                        assert(a + h =~= done + types_for_list_spec(
                            self@.types,
                            base_names.take(k + 1 as int),
                        ));
                    }
                    k = k + 1;
                }
                proof {
                    assert(base_names.take(m as int) =~= base_names);
                }
                out
            },
        }
    }

    /// Fold a hint list, in order, into the mapping under construction.
    fn apply_hints(
        &self,
        out: &mut Vec<(String, EntityPropertyType)>,
        hints: &Vec<FoundType>,
    )
        requires
            self.wf(),
            forall|k: int|
                0 <= k < hints@.len() ==> known_tag((#[trigger] hints@[k])@.ty),
        ensures
            final(out)@.map_values(|p: (String, EntityPropertyType)| (p.0@, p.1)) == fold_hints(
                old(out)@.map_values(|p: (String, EntityPropertyType)| (p.0@, p.1)),
                hints@.map_values(|t: FoundType| t@),
            ),
    {
        let ghost acc0 = out@.map_values(|p: (String, EntityPropertyType)| (p.0@, p.1));
        let ghost hv = hints@.map_values(|t: FoundType| t@);
        let n: usize = hints.len();
        let mut i: usize = 0;
        assert(fold_hints(acc0, hv.take(0)) == acc0) by {
            assert(hv.take(0) =~= Seq::<FoundTypeV>::empty());
        }
        while i < n
            invariant
                i <= n,
                n == hints@.len(),
                hv == hints@.map_values(|t: FoundType| t@),
                forall|k: int| 0 <= k < hints@.len() ==> known_tag((#[trigger] hints@[k])@.ty),
                out@.map_values(|p: (String, EntityPropertyType)| (p.0@, p.1)) == fold_hints(
                    acc0,
                    hv.take(i as int),
                ),
            decreases n - i,
        {
            proof {
                assert(hv.take(i + 1 as int).drop_last() =~= hv.take(i as int));
                assert(hv.take(i + 1 as int).last() == hv[i as int]);
            }
            let h = &hints[i];
            let ty = map_sdk_type(h.ty.as_str());
            put_hint_exec(out, &h.name, ty);
            i = i + 1;
        }
        assert(hv.take(n as int) =~= hv);
    }
}

/// Record one hint in the mapping, overriding an earlier entry of the same
/// name, as `put_hint` describes.
fn put_hint_exec(out: &mut Vec<(String, EntityPropertyType)>, name: &String, ty: EntityPropertyType)
    ensures
        final(out)@.map_values(|p: (String, EntityPropertyType)| (p.0@, p.1)) == put_hint(
            old(out)@.map_values(|p: (String, EntityPropertyType)| (p.0@, p.1)),
            name@,
            ty,
        ),
{
    let ghost acc = out@.map_values(|p: (String, EntityPropertyType)| (p.0@, p.1));
    let n: usize = out.len();
    let mut j: usize = 0;
    while j < n && !str_eq(out[j].0.as_str(), name.as_str())
        invariant
            j <= n,
            n == out@.len(),
            acc == out@.map_values(|p: (String, EntityPropertyType)| (p.0@, p.1)),
            forall|k: int| 0 <= k < j ==> acc[k].0 != name@,
        decreases n - j,
    {
        assert(acc[j as int].0 == out@[j as int].0@);
        j = j + 1;
    }
    proof {
        lemma_pair_index_char(acc, name@);
        if j < n {
            assert(acc[j as int].0 == out@[j as int].0@);
            assert(pair_index(acc, name@) == j as int);
        } else {
            assert(pair_index(acc, name@) == -1);
        }
    }
    if j < n {
        let _old_entry = out.remove(j);
        out.insert(j, (name.clone(), ty));
        assert(out@.map_values(|p: (String, EntityPropertyType)| (p.0@, p.1)) =~= acc.update(
            j as int,
            (name@, ty),
        ));
    } else {
        out.push((name.clone(), ty));
        assert(out@.map_values(|p: (String, EntityPropertyType)| (p.0@, p.1)) =~= acc.push(
            (name@, ty),
        ));
    }
}

/// What `pair_index` returns.
proof fn lemma_pair_index_char(acc: Seq<(Seq<char>, EntityPropertyType)>, name: Seq<char>)
    ensures
        pair_index(acc, name) == -1 ==> forall|k: int| 0 <= k < acc.len() ==> acc[k].0 != name,
        pair_index(acc, name) >= 0 ==> 0 <= pair_index(acc, name) < acc.len() && acc[pair_index(
            acc,
            name,
        )].0 == name,
        pair_index(acc, name) >= 0 ==> forall|k: int|
            0 <= k < pair_index(acc, name) ==> acc[k].0 != name,
    decreases acc.len(),
{
    if acc.len() > 0 && acc[0].0 != name {
        lemma_pair_index_char(acc.skip(1), name);
        assert forall|k: int| 1 <= k < acc.len() implies acc.skip(1)[k - 1] == acc[k] by {}
    }
}

/// Hints selected for a class inherit the tag vocabulary of the data set.
proof fn lemma_types_for_spec_tags(ts: Seq<FoundTypeV>, class: Seq<char>)
    requires
        forall|i: int| 0 <= i < ts.len() ==> known_tag((#[trigger] ts[i]).ty),
    ensures
        forall|k: int|
            0 <= k < types_for_spec(ts, class).len() ==> known_tag(
                (#[trigger] types_for_spec(ts, class)[k]).ty,
            ),
    decreases ts.len(),
{
    if ts.len() > 0 {
        assert forall|i: int| 0 <= i < ts.drop_last().len() implies known_tag(
            (#[trigger] ts.drop_last()[i]).ty,
        ) by {
            assert(ts.drop_last()[i] == ts[i]);
        }
        lemma_types_for_spec_tags(ts.drop_last(), class);
        let r = types_for_spec(ts, class);
        let rest = types_for_spec(ts.drop_last(), class);
        assert(known_tag(ts[ts.len() - 1].ty));
        assert forall|k: int| 0 <= k < r.len() implies known_tag((#[trigger] r[k]).ty) by {
            if ts.last().class == class {
                if k < rest.len() {
                    assert(r[k] == rest[k]);
                } else {
                    assert(r[k] == ts.last());
                }
            } else {
                assert(r[k] == rest[k]);
            }
        }
    }
}

/// Appending one class to the list appends its hints.
proof fn lemma_types_for_list_snoc(ts: Seq<FoundTypeV>, classes: Seq<Seq<char>>, k: int)
    requires
        0 <= k < classes.len(),
    ensures
        types_for_list_spec(ts, classes.take(k + 1)) == types_for_list_spec(ts, classes.take(k))
            + types_for_spec(ts, classes[k]),
    decreases k,
{
    if k == 0 {
        assert(classes.take(1)[0] == classes[0]);
        assert(classes.take(1).skip(1) =~= Seq::<Seq<char>>::empty());
        assert(types_for_list_spec(ts, classes.take(0)) =~= Seq::<FoundTypeV>::empty());
        assert(types_for_list_spec(ts, classes.take(1).skip(1)) =~= Seq::<FoundTypeV>::empty());
        assert(types_for_list_spec(ts, classes.take(1)) =~= types_for_spec(ts, classes[0]));
        assert(types_for_list_spec(ts, classes.take(0)) + types_for_spec(ts, classes[0])
            =~= types_for_spec(ts, classes[0]));
    } else {
        lemma_types_for_list_snoc(ts, classes.skip(1), k - 1);
        assert(classes.take(k + 1)[0] == classes[0]);
        assert(classes.take(k + 1).skip(1) =~= classes.skip(1).take(k));
        assert(classes.take(k)[0] == classes[0]);
        assert(classes.take(k).skip(1) =~= classes.skip(1).take(k - 1));
        assert(classes.skip(1)[k - 1] == classes[k]);
        assert(types_for_list_spec(ts, classes.take(k + 1)) =~= types_for_list_spec(
            ts,
            classes.take(k),
        ) + types_for_spec(ts, classes[k]));
    }
}

} // verus!
