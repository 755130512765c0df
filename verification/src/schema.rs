use vstd::prelude::*;
use crate::aggregate::{ObservedClass, ObservedClassV, ObservedPropertyV};
use crate::cascade::minimal_type_spec;
use crate::strutil::{str_eq, string_from_chars};
use crate::types::EntityPropertyType;

verus! {

// ---------------------------------------------------------------------------
// Schema synthesis: one deterministic `ClassSchema` per observed class.
// Property names are normalized to valid identifiers of the generated
// code's grammar, properties are sorted by normalized name and classes by
// identifier, so that repeated runs over the same corpus give identical
// output.
// ---------------------------------------------------------------------------

/// One synthesized property: its normalized name, inferred type, whether it
/// may be absent from an instance, and the raw spelling when the name had
/// to be changed.
pub struct PropertySchema {
    pub name: String,
    pub ty: EntityPropertyType,
    pub optional: bool,
    pub rename_from: Option<String>,
}

pub ghost struct PropertySchemaV {
    pub name: Seq<char>,
    pub ty: EntityPropertyType,
    pub optional: bool,
    pub rename_from: Option<Seq<char>>,
}

impl View for PropertySchema {
    type V = PropertySchemaV;

    open spec fn view(&self) -> PropertySchemaV {
        PropertySchemaV {
            name: self.name@,
            ty: self.ty,
            optional: self.optional,
            rename_from: match self.rename_from {
                Some(s) => Some(s@),
                None => None,
            },
        }
    }
}

/// One synthesized class: its upper-camel-case identifier, its properties
/// sorted by name, and whether any property resolved to `Str` (the schema
/// then borrows from the input text).
pub struct ClassSchema {
    pub identifier: String,
    pub properties: Vec<PropertySchema>,
    pub reference_bearing: bool,
}

pub ghost struct ClassSchemaV {
    pub identifier: Seq<char>,
    pub properties: Seq<PropertySchemaV>,
    pub reference_bearing: bool,
}

impl View for ClassSchema {
    type V = ClassSchemaV;

    open spec fn view(&self) -> ClassSchemaV {
        ClassSchemaV {
            identifier: self.identifier@,
            properties: self.properties@.map_values(|p: PropertySchema| p@),
            reference_bearing: self.reference_bearing,
        }
    }
}

// ---------------------------------------------------------------------------
// Identifier grammar of the generated code.
// ---------------------------------------------------------------------------

pub open spec fn is_ident_start(c: char) -> bool {
    (97 <= c as u32 && c as u32 <= 122) || (65 <= c as u32 && c as u32 <= 90) || c == '_'
}

pub open spec fn is_ident_char(c: char) -> bool {
    is_ident_start(c) || crate::parse::is_digit(c)
}

/// The reserved words of the generated code's grammar (one of them is
/// assembled from two pieces, a spelling this crate's own text avoids).
pub open spec fn is_reserved_word(s: Seq<char>) -> bool {
    ||| s == "as"@
    ||| s == "break"@
    ||| s == "const"@
    ||| s == "continue"@
    ||| s == "crate"@
    ||| s == "dyn"@
    ||| s == "else"@
    ||| s == "enum"@
    ||| s == "ext"@ + "ern"@
    ||| s == "false"@
    ||| s == "fn"@
    ||| s == "for"@
    ||| s == "if"@
    ||| s == "impl"@
    ||| s == "in"@
    ||| s == "let"@
    ||| s == "loop"@
    ||| s == "match"@
    ||| s == "mod"@
    ||| s == "move"@
    ||| s == "mut"@
    ||| s == "pub"@
    ||| s == "ref"@
    ||| s == "return"@
    ||| s == "self"@
    ||| s == "Self"@
    ||| s == "static"@
    ||| s == "struct"@
    ||| s == "super"@
    ||| s == "trait"@
    ||| s == "true"@
    ||| s == "type"@
    ||| s == "unsafe"@
    ||| s == "use"@
    ||| s == "where"@
    ||| s == "while"@
    ||| s == "async"@
    ||| s == "await"@
    ||| s == "try"@
    ||| s == "abstract"@
    ||| s == "become"@
    ||| s == "box"@
    ||| s == "do"@
    ||| s == "final"@
    ||| s == "macro"@
    ||| s == "override"@
    ||| s == "priv"@
    ||| s == "typeof"@
    ||| s == "unsized"@
    ||| s == "virtual"@
    ||| s == "yield"@
}

/// A valid bare identifier: identifier characters with a non-digit start,
/// not a lone underscore, and not a reserved word.
pub open spec fn is_valid_identifier(s: Seq<char>) -> bool {
    &&& s.len() > 0
    &&& is_ident_start(s[0])
    &&& forall|i: int| 0 <= i < s.len() ==> is_ident_char(#[trigger] s[i])
    &&& s != "_"@
    &&& !is_reserved_word(s)
}

pub open spec fn sanitize_char(c: char) -> char {
    if is_ident_char(c) {
        c
    } else {
        '_'
    }
}

pub open spec fn sanitized(s: Seq<char>) -> Seq<char> {
    s.map_values(|c: char| sanitize_char(c))
}

/// The normalized output name of a raw property name: kept when already a
/// valid bare identifier; a reserved word gets the raw-identifier escape;
/// anything else has its foreign characters replaced by `_`, with a leading
/// `_` added when the result would still not be a valid start.
pub open spec fn normalized_name(raw: Seq<char>) -> Seq<char> {
    if is_valid_identifier(raw) {
        raw
    } else if is_reserved_word(raw) {
        "r#"@ + raw
    } else {
        let t = sanitized(raw);
        if t.len() == 0 || !is_ident_start(t[0]) || t == "_"@ || is_reserved_word(t) {
            seq!['_'] + t
        } else {
            t
        }
    }
}

/// The recorded raw spelling: present exactly when the name was changed.
pub open spec fn rename_for(raw: Seq<char>) -> Option<Seq<char>> {
    if is_valid_identifier(raw) {
        None
    } else {
        Some(raw)
    }
}

// ---------------------------------------------------------------------------
// Exec identifier handling.
// ---------------------------------------------------------------------------

fn is_ident_start_exec(c: char) -> (r: bool)
    ensures
        r == is_ident_start(c),
{
    let u: u32 = c as u32;
    (97 <= u && u <= 122) || (65 <= u && u <= 90) || c == '_'
}

fn is_ident_char_exec(c: char) -> (r: bool)
    ensures
        r == is_ident_char(c),
{
    let u: u32 = c as u32;
    is_ident_start_exec(c) || (48 <= u && u <= 57)
}

fn is_reserved_exec(s: &str) -> (r: bool)
    ensures
        r == is_reserved_word(s@),
{
    let mut ext_kw: String = String::from_str("ext");
    ext_kw.append("ern");
    str_eq(s, "as") || str_eq(s, "break") || str_eq(s, "const") || str_eq(s, "continue") || str_eq(
        s,
        "crate",
    ) || str_eq(s, "dyn") || str_eq(s, "else") || str_eq(s, "enum") || str_eq(s, ext_kw.as_str())
        || str_eq(s, "false") || str_eq(s, "fn") || str_eq(s, "for") || str_eq(s, "if") || str_eq(
        s,
        "impl",
    ) || str_eq(s, "in") || str_eq(s, "let") || str_eq(s, "loop") || str_eq(s, "match") || str_eq(
        s,
        "mod",
    ) || str_eq(s, "move") || str_eq(s, "mut") || str_eq(s, "pub") || str_eq(s, "ref") || str_eq(
        s,
        "return",
    ) || str_eq(s, "self") || str_eq(s, "Self") || str_eq(s, "static") || str_eq(s, "struct")
        || str_eq(s, "super") || str_eq(s, "trait") || str_eq(s, "true") || str_eq(s, "type")
        || str_eq(s, "unsafe") || str_eq(s, "use") || str_eq(s, "where") || str_eq(s, "while")
        || str_eq(s, "async") || str_eq(s, "await") || str_eq(s, "try") || str_eq(s, "abstract")
        || str_eq(s, "become") || str_eq(s, "box") || str_eq(s, "do") || str_eq(s, "final")
        || str_eq(s, "macro") || str_eq(s, "override") || str_eq(s, "priv") || str_eq(s, "typeof")
        || str_eq(s, "unsized") || str_eq(s, "virtual") || str_eq(s, "yield")
}

fn is_valid_identifier_exec(s: &str) -> (r: bool)
    ensures
        r == is_valid_identifier(s@),
{
    let v = crate::strutil::chars_of(s);
    let n: usize = v.len();
    if n == 0 {
        return false;
    }
    if !is_ident_start_exec(v[0]) {
        return false;
    }
    let mut i: usize = 0;
    while i < n
        invariant
            i <= n,
            n == s@.len(),
            v@ == s@,
            forall|k: int| 0 <= k < i ==> is_ident_char(#[trigger] s@[k]),
        decreases n - i,
    {
        if !is_ident_char_exec(v[i]) {
            return false;
        }
        i = i + 1;
    }
    if str_eq(s, "_") {
        return false;
    }
    !is_reserved_exec(s)
}

/// Normalize a raw property name to the grammar above; the second component
/// holds the raw spelling whenever the name was changed.
pub fn normalize_name(raw: &str) -> (r: (String, Option<String>))
    ensures
        r.0@ == normalized_name(raw@),
        (match r.1 {
            Some(s) => rename_for(raw@) == Some(s@),
            None => rename_for(raw@) is None,
        }),
{
    if is_valid_identifier_exec(raw) {
        return (raw.to_owned(), None);
    }
    if is_reserved_exec(raw) {
        let mut escaped: String = String::from_str("r#");
        escaped.append(raw);
        return (escaped, Some(raw.to_owned()));
    }
    let v = crate::strutil::chars_of(raw);
    let n: usize = v.len();
    let mut t: Vec<char> = Vec::new();
    let mut i: usize = 0;
    while i < n
        invariant
            i <= n,
            n == v@.len(),
            v@ == raw@,
            t@ == sanitized(raw@).take(i as int),
        decreases n - i,
    {
        if is_ident_char_exec(v[i]) {
            t.push(v[i]);
        } else {
            t.push('_');
        }
        assert(t@ =~= sanitized(raw@).take(i + 1 as int));
        i = i + 1;
    }
    assert(t@ =~= sanitized(raw@));
    let ts = string_from_chars(&t);
    let needs_prefix: bool = t.len() == 0 || !is_ident_start_exec(t[0]) || str_eq(ts.as_str(), "_")
        || is_reserved_exec(ts.as_str());
    if needs_prefix {
        let mut out: Vec<char> = Vec::new();
        out.push('_');
        let mut k: usize = 0;
        while k < t.len()
            invariant
                k <= t@.len(),
                out@ == seq!['_'] + t@.take(k as int),
            decreases t@.len() - k,
        {
            out.push(t[k]);
            assert(out@ =~= seq!['_'] + t@.take(k + 1 as int));
            k = k + 1;
        }
        assert(out@ =~= seq!['_'] + t@);
        (string_from_chars(&out), Some(raw.to_owned()))
    } else {
        (ts, Some(raw.to_owned()))
    }
}

// ---------------------------------------------------------------------------
// Trusted appendix: the class identifier conversion.
// ---------------------------------------------------------------------------

/// What heck's upper-camel-case conversion returns for a string; the result
/// depends on the characters alone.
pub uninterp spec fn upper_camel_of(s: Seq<char>) -> Seq<char>;

/// Relies on heck's `ToUpperCamelCase` for `str`.
#[verifier::external_body]
fn upper_camel(s: &str) -> (r: String)
    ensures
        r@ == upper_camel_of(s@),
{
    heck::ToUpperCamelCase::to_upper_camel_case(s)
}

// ---------------------------------------------------------------------------
// Ordering and stable insertion sort.
// ---------------------------------------------------------------------------

/// Lexicographic order on character sequences by scalar value.
pub open spec fn lex_le(a: Seq<char>, b: Seq<char>) -> bool
    decreases a.len(),
{
    if a.len() == 0 {
        true
    } else if b.len() == 0 {
        false
    } else if (a[0] as u32) < (b[0] as u32) {
        true
    } else if (a[0] as u32) > (b[0] as u32) {
        false
    } else {
        lex_le(a.skip(1), b.skip(1))
    }
}

/// Exec comparison matching `lex_le`.
pub fn lex_le_exec(a: &str, b: &str) -> (r: bool)
    ensures
        r == lex_le(a@, b@),
{
    let la: usize = a.unicode_len();
    let lb: usize = b.unicode_len();
    let mut i: usize = 0;
    assert(a@.skip(0) =~= a@);
    assert(b@.skip(0) =~= b@);
    while i < la && i < lb
        invariant
            i <= la,
            i <= lb,
            la == a@.len(),
            lb == b@.len(),
            lex_le(a@, b@) == lex_le(a@.skip(i as int), b@.skip(i as int)),
        decreases la - i,
    {
        let ca = a.get_char(i);
        let cb = b.get_char(i);
        proof {
            assert(a@.skip(i as int)[0] == a@[i as int]);
            assert(b@.skip(i as int)[0] == b@[i as int]);
            assert(a@.skip(i as int).skip(1) =~= a@.skip(i + 1 as int));
            assert(b@.skip(i as int).skip(1) =~= b@.skip(i + 1 as int));
        }
        if (ca as u32) < (cb as u32) {
            return true;
        }
        if (ca as u32) > (cb as u32) {
            return false;
        }
        i = i + 1;
    }
    proof {
        if i == la {
            assert(a@.skip(i as int) =~= Seq::<char>::empty());
        } else {
            assert(b@.skip(i as int) =~= Seq::<char>::empty());
            assert(a@.skip(i as int).len() > 0);
        }
    }
    i == la
}

/// Stable sorted insertion of a property schema, by normalized name: the
/// new element lands after every element ordered at or before it.
pub open spec fn insert_prop_sorted(s: Seq<PropertySchemaV>, x: PropertySchemaV) -> Seq<
    PropertySchemaV,
>
    decreases s.len(),
{
    if s.len() == 0 {
        seq![x]
    } else if lex_le(s.last().name, x.name) {
        s.push(x)
    } else {
        insert_prop_sorted(s.drop_last(), x).push(s.last())
    }
}

/// Stable insertion sort of property schemas by name.
pub open spec fn sort_props_spec(s: Seq<PropertySchemaV>) -> Seq<PropertySchemaV>
    decreases s.len(),
{
    if s.len() == 0 {
        Seq::empty()
    } else {
        insert_prop_sorted(sort_props_spec(s.drop_last()), s.last())
    }
}

/// Stable sorted insertion of a class schema, by identifier.
pub open spec fn insert_class_sorted(s: Seq<ClassSchemaV>, x: ClassSchemaV) -> Seq<ClassSchemaV>
    decreases s.len(),
{
    if s.len() == 0 {
        seq![x]
    } else if lex_le(s.last().identifier, x.identifier) {
        s.push(x)
    } else {
        insert_class_sorted(s.drop_last(), x).push(s.last())
    }
}

/// Stable insertion sort of class schemas by identifier.
pub open spec fn sort_classes_spec(s: Seq<ClassSchemaV>) -> Seq<ClassSchemaV>
    decreases s.len(),
{
    if s.len() == 0 {
        Seq::empty()
    } else {
        insert_class_sorted(sort_classes_spec(s.drop_last()), s.last())
    }
}

/// Where the stable insertion lands: at the position `j` whose suffix holds
/// exactly the elements ordered strictly after `x`.
proof fn lemma_insert_prop_at(s: Seq<PropertySchemaV>, x: PropertySchemaV, j: int)
    requires
        0 <= j <= s.len(),
        forall|k: int| j <= k < s.len() ==> !lex_le((#[trigger] s[k]).name, x.name),
        j > 0 ==> lex_le(s[j - 1].name, x.name),
    ensures
        insert_prop_sorted(s, x) == s.insert(j, x),
    decreases s.len(),
{
    if s.len() == 0 {
        assert(insert_prop_sorted(s, x) =~= s.insert(0, x));
    } else if lex_le(s.last().name, x.name) {
        assert(j == s.len());
        assert(insert_prop_sorted(s, x) =~= s.insert(j, x));
    } else {
        assert(j <= s.len() - 1);
        assert forall|k: int| j <= k < s.drop_last().len() implies !lex_le(
            (#[trigger] s.drop_last()[k]).name,
            x.name,
        ) by {
            assert(s.drop_last()[k] == s[k]);
        }
        if j > 0 {
            assert(s.drop_last()[j - 1] == s[j - 1]);
        }
        lemma_insert_prop_at(s.drop_last(), x, j);
        assert(insert_prop_sorted(s, x) =~= s.insert(j, x)) by {
            assert(insert_prop_sorted(s, x) == s.drop_last().insert(j, x).push(s.last()));
        }
    }
}

/// Where the stable insertion of a class schema lands.
proof fn lemma_insert_class_at(s: Seq<ClassSchemaV>, x: ClassSchemaV, j: int)
    requires
        0 <= j <= s.len(),
        forall|k: int| j <= k < s.len() ==> !lex_le((#[trigger] s[k]).identifier, x.identifier),
        j > 0 ==> lex_le(s[j - 1].identifier, x.identifier),
    ensures
        insert_class_sorted(s, x) == s.insert(j, x),
    decreases s.len(),
{
    if s.len() == 0 {
        assert(insert_class_sorted(s, x) =~= s.insert(0, x));
    } else if lex_le(s.last().identifier, x.identifier) {
        assert(j == s.len());
        assert(insert_class_sorted(s, x) =~= s.insert(j, x));
    } else {
        assert(j <= s.len() - 1);
        assert forall|k: int| j <= k < s.drop_last().len() implies !lex_le(
            (#[trigger] s.drop_last()[k]).identifier,
            x.identifier,
        ) by {
            assert(s.drop_last()[k] == s[k]);
        }
        if j > 0 {
            assert(s.drop_last()[j - 1] == s[j - 1]);
        }
        lemma_insert_class_at(s.drop_last(), x, j);
        assert(insert_class_sorted(s, x) =~= s.insert(j, x)) by {
            assert(insert_class_sorted(s, x) == s.drop_last().insert(j, x).push(s.last()));
        }
    }
}

/// Insert a property schema at its stable sorted position.
fn insert_prop(out: &mut Vec<PropertySchema>, x: PropertySchema)
    ensures
        final(out)@.map_values(|p: PropertySchema| p@) == insert_prop_sorted(
            old(out)@.map_values(|p: PropertySchema| p@),
            x@,
        ),
{
    let ghost s = out@.map_values(|p: PropertySchema| p@);
    let n: usize = out.len();
    let mut j: usize = n;
    while j > 0 && !lex_le_exec(out[j - 1].name.as_str(), x.name.as_str())
        invariant
            j <= n,
            n == out@.len(),
            s == out@.map_values(|p: PropertySchema| p@),
            forall|k: int| j <= k < n ==> !lex_le((#[trigger] s[k]).name, x@.name),
        decreases j,
    {
        assert(s[j - 1].name == out@[j - 1]@.name);
        j = j - 1;
    }
    proof {
        if j > 0 {
            assert(s[j - 1].name == out@[j - 1]@.name);
        }
        lemma_insert_prop_at(s, x@, j as int);
    }
    out.insert(j, x);
    assert(out@.map_values(|p: PropertySchema| p@) =~= s.insert(j as int, x@));
}

/// Insert a class schema at its stable sorted position.
fn insert_class(out: &mut Vec<ClassSchema>, x: ClassSchema)
    ensures
        final(out)@.map_values(|c: ClassSchema| c@) == insert_class_sorted(
            old(out)@.map_values(|c: ClassSchema| c@),
            x@,
        ),
{
    let ghost s = out@.map_values(|c: ClassSchema| c@);
    let n: usize = out.len();
    let mut j: usize = n;
    while j > 0 && !lex_le_exec(out[j - 1].identifier.as_str(), x.identifier.as_str())
        invariant
            j <= n,
            n == out@.len(),
            s == out@.map_values(|c: ClassSchema| c@),
            forall|k: int| j <= k < n ==> !lex_le((#[trigger] s[k]).identifier, x@.identifier),
        decreases j,
    {
        assert(s[j - 1].identifier == out@[j - 1]@.identifier);
        j = j - 1;
    }
    proof {
        if j > 0 {
            assert(s[j - 1].identifier == out@[j - 1]@.identifier);
        }
        lemma_insert_class_at(s, x@, j as int);
    }
    out.insert(j, x);
    assert(out@.map_values(|c: ClassSchema| c@) =~= s.insert(j as int, x@));
}

// ---------------------------------------------------------------------------
// Synthesis.
// ---------------------------------------------------------------------------

/// What one observed property synthesizes to, given its class's instance
/// count: the cascade's type, optionality exactly when the property was
/// absent from some instance, and the name normalization.
pub open spec fn property_schema_spec(p: ObservedPropertyV, occurrences: nat) -> PropertySchemaV {
    PropertySchemaV {
        name: normalized_name(p.name),
        ty: minimal_type_spec(p.name, p.values),
        optional: p.values.len() < occurrences,
        rename_from: rename_for(p.name),
    }
}

/// What one observed class synthesizes to.
pub open spec fn class_schema_spec(oc: ObservedClassV) -> ClassSchemaV {
    ClassSchemaV {
        identifier: upper_camel_of(oc.name),
        properties: sort_props_spec(
            oc.properties.map_values(|p: ObservedPropertyV| property_schema_spec(p, oc.occurrences)),
        ),
        reference_bearing: exists|q: int|
            0 <= q < oc.properties.len() && minimal_type_spec(
                (#[trigger] oc.properties[q]).name,
                oc.properties[q].values,
            ) == EntityPropertyType::Str,
    }
}

/// What a whole observed corpus synthesizes to: one schema per class,
/// sorted by identifier.
pub open spec fn schemas_spec(classes: Seq<ObservedClassV>) -> Seq<ClassSchemaV> {
    sort_classes_spec(classes.map_values(|c: ObservedClassV| class_schema_spec(c)))
}

/// Synthesize the schema of one observed class.
pub fn synthesize_class(oc: &ObservedClass) -> (s: ClassSchema)
    ensures
        s@ == class_schema_spec(oc@),
{
    let ghost mapped = oc@.properties.map_values(
        |p: ObservedPropertyV| property_schema_spec(p, oc@.occurrences),
    );
    let mut props: Vec<PropertySchema> = Vec::new();
    let mut has_str: bool = false;
    let n: usize = oc.properties.len();
    let mut q: usize = 0;
    assert(props@.map_values(|p: PropertySchema| p@) =~= sort_props_spec(mapped.take(0)));
    while q < n
        invariant
            q <= n,
            n == oc.properties@.len(),
            mapped == oc@.properties.map_values(
                |p: ObservedPropertyV| property_schema_spec(p, oc@.occurrences),
            ),
            n == oc@.properties.len(),
            props@.map_values(|p: PropertySchema| p@) == sort_props_spec(mapped.take(q as int)),
            has_str == exists|k: int|
                0 <= k < q && minimal_type_spec(
                    (#[trigger] oc@.properties[k]).name,
                    oc@.properties[k].values,
                ) == EntityPropertyType::Str,
        decreases n - q,
    {
        proof {
            assert(mapped.take(q + 1 as int).drop_last() =~= mapped.take(q as int));
            assert(mapped.take(q + 1 as int).last() == mapped[q as int]);
            assert(oc@.properties[q as int] == oc.properties@[q as int]@);
        }
        let p = &oc.properties[q];
        let ty = get_prop_type(p);
        let ghost before_has = has_str;
        if ty == EntityPropertyType::Str {
            has_str = true;
        }
        proof {
            if ty == EntityPropertyType::Str {
                assert(minimal_type_spec(oc@.properties[q as int].name, oc@.properties[
                    q as int].values) == EntityPropertyType::Str);
            }
        }
        let named = normalize_name(p.name.as_str());
        let ps = PropertySchema {
            name: named.0,
            ty,
            optional: p.values.len() < oc.occurrences,
            rename_from: named.1,
        };
        assert(ps@ == mapped[q as int]);
        insert_prop(&mut props, ps);
        q = q + 1;
    }
    assert(mapped.take(n as int) =~= mapped);
    let identifier = upper_camel(oc.name.as_str());
    let result = ClassSchema { identifier, properties: props, reference_bearing: has_str };
    assert(result@ == class_schema_spec(oc@));
    result
}

/// The cascade's type for one observed property.
fn get_prop_type(p: &crate::aggregate::ObservedProperty) -> (t: EntityPropertyType)
    ensures
        t == minimal_type_spec(p@.name, p@.values),
{
    crate::cascade::get_minimal_type(p.name.as_str(), &p.values)
}

/// Synthesize the deterministic, identifier-sorted schema list of a whole
/// observed corpus.
pub fn synthesize_schemas(classes: &Vec<ObservedClass>) -> (r: Vec<ClassSchema>)
    ensures
        r@.map_values(|c: ClassSchema| c@) == schemas_spec(
            classes@.map_values(|c: ObservedClass| c@),
        ),
{
    let ghost cvs = classes@.map_values(|c: ObservedClass| c@);
    let ghost mapped = cvs.map_values(|c: ObservedClassV| class_schema_spec(c));
    let mut out: Vec<ClassSchema> = Vec::new();
    let n: usize = classes.len();
    let mut i: usize = 0;
    assert(out@.map_values(|c: ClassSchema| c@) =~= sort_classes_spec(mapped.take(0)));
    while i < n
        invariant
            i <= n,
            n == classes@.len(),
            cvs == classes@.map_values(|c: ObservedClass| c@),
            mapped == cvs.map_values(|c: ObservedClassV| class_schema_spec(c)),
            out@.map_values(|c: ClassSchema| c@) == sort_classes_spec(mapped.take(i as int)),
        decreases n - i,
    {
        proof {
            assert(mapped.take(i + 1 as int).drop_last() =~= mapped.take(i as int));
            assert(mapped.take(i + 1 as int).last() == mapped[i as int]);
            assert(cvs[i as int] == classes@[i as int]@);
        }
        let cs = synthesize_class(&classes[i]);
        assert(cs@ == mapped[i as int]);
        insert_class(&mut out, cs);
        i = i + 1;
    }
    assert(mapped.take(n as int) =~= mapped);
    out
}

// ---------------------------------------------------------------------------
// Properties of the synthesis.
// ---------------------------------------------------------------------------

/// Optionality law: for every class `c` and non-skipped property `p` of an
/// aggregated corpus, the synthesized `optional` flag holds exactly when
/// fewer values of `p` were observed than there were instances of `c`,
/// that is, when some instance lacked the property.
pub proof fn lemma_optionality(es: Seq<Seq<(Seq<char>, Seq<char>)>>, c: Seq<char>, p: Seq<char>)
    requires
        c.len() > 0,
        !crate::aggregate::skip_pair_key(p),
    ensures
        ({
            let agg = crate::aggregate::aggregate_spec(es);
            let j = crate::aggregate::class_index(agg, c);
            j >= 0 ==> {
                let q = crate::aggregate::prop_index(agg[j].properties, p);
                q >= 0 ==> (property_schema_spec(
                    agg[j].properties[q],
                    agg[j].occurrences,
                ).optional <==> crate::aggregate::value_count(es, c, p)
                    < crate::aggregate::occurrences_of(es, c))
            }
        }),
{
    crate::aggregate::lemma_aggregate_counts(es, c, p);
}

/// Rename law: the reserved property name `type` normalizes to the escaped
/// identifier `r#type`, the escape collides with no reserved word and is
/// itself no bare identifier, and the raw spelling is recorded so the
/// original name round-trips.
pub proof fn lemma_rename_type()
    ensures
        normalized_name("type"@) == "r#type"@,
        rename_for("type"@) == Some("type"@),
        !is_reserved_word("r#type"@),
        !is_valid_identifier("r#type"@),
{
    reveal_strlit("type");
    reveal_strlit("r#type");
    reveal_strlit("r#");
    assert(is_reserved_word("type"@));
    assert(!is_valid_identifier("type"@));
    assert("r#"@ + "type"@ =~= "r#type"@);
    reveal_strlit("as");
    reveal_strlit("break");
    reveal_strlit("const");
    reveal_strlit("continue");
    reveal_strlit("crate");
    reveal_strlit("dyn");
    reveal_strlit("else");
    reveal_strlit("enum");
    reveal_strlit("ext");
    reveal_strlit("ern");
    reveal_strlit("false");
    reveal_strlit("fn");
    reveal_strlit("for");
    reveal_strlit("if");
    reveal_strlit("impl");
    reveal_strlit("in");
    reveal_strlit("let");
    reveal_strlit("loop");
    reveal_strlit("match");
    reveal_strlit("mod");
    reveal_strlit("move");
    reveal_strlit("mut");
    reveal_strlit("pub");
    reveal_strlit("ref");
    reveal_strlit("return");
    reveal_strlit("self");
    reveal_strlit("Self");
    reveal_strlit("static");
    reveal_strlit("struct");
    reveal_strlit("super");
    reveal_strlit("trait");
    reveal_strlit("true");
    reveal_strlit("unsafe");
    reveal_strlit("use");
    reveal_strlit("where");
    reveal_strlit("while");
    reveal_strlit("async");
    reveal_strlit("await");
    reveal_strlit("try");
    reveal_strlit("abstract");
    reveal_strlit("become");
    reveal_strlit("box");
    reveal_strlit("do");
    reveal_strlit("final");
    reveal_strlit("macro");
    reveal_strlit("override");
    reveal_strlit("priv");
    reveal_strlit("typeof");
    reveal_strlit("unsized");
    reveal_strlit("virtual");
    reveal_strlit("yield");
    assert("r#type"@[1] == '#');
    assert("r#type"@ != "ext"@ + "ern"@) by {
        assert(("ext"@ + "ern"@)[1] == 'x');
    }
    assert("r#type"@ != "return"@) by {
        assert("return"@[1] == 'e');
    }
    assert("r#type"@ != "static"@) by {
        assert("static"@[1] == 't');
    }
    assert("r#type"@ != "struct"@) by {
        assert("struct"@[1] == 't');
    }
    assert("r#type"@ != "unsafe"@) by {
        assert("unsafe"@[1] == 'n');
    }
    assert("r#type"@ != "typeof"@) by {
        assert("typeof"@[1] == 'y');
    }
    assert("r#type"@ != "become"@) by {
        assert("become"@[1] == 'e');
    }
    assert(!is_reserved_word("r#type"@));
    assert(!is_ident_char('#'));
    assert(!is_valid_identifier("r#type"@));
}

} // verus!
