use vstd::prelude::*;
use crate::sdk_data::{float_tag, FoundType, FoundTypeV, Inherit, InheritV};
use crate::strutil::{
    chars_of, contains_seq, contains_str, find_at, find_chars_from, lemma_find_at, split_comma,
    split_comma_vec, string_from_chars, subvec, trim_quotes_spec, trim_quotes_vec, trim_spec,
    trim_vec,
};

verus! {

// ---------------------------------------------------------------------------
// Structural text scanning over engine source: data-description blocks with
// their key-field declarations, the conversion-call classifier, and the
// merging of inheritance pairs.
// ---------------------------------------------------------------------------

pub open spec fn begin_marker() -> Seq<char> {
    "BEGIN_DATADESC("@
}

pub open spec fn end_marker() -> Seq<char> {
    "END_DATADESC"@
}

pub open spec fn keyfield_marker() -> Seq<char> {
    "DEFINE_KEYFIELD("@
}

/// The fixed tag table of the key-field declarations.
pub open spec fn map_type_spec(ty: Seq<char>) -> Option<Seq<char>> {
    if ty == "FIELD_FLOAT"@ {
        Some(float_tag())
    } else if ty == "FIELD_STRING"@ {
        Some("string"@)
    } else if ty == "FIELD_BOOLEAN"@ {
        Some("bool"@)
    } else if ty == "FIELD_INTEGER"@ {
        Some("bool"@)
    } else if ty == "FIELD_COLOR32"@ {
        Some("color"@)
    } else if ty == "FIELD_VECTOR"@ {
        Some("vector"@)
    } else {
        None
    }
}

/// Map a declared field tag through the fixed table; unknown tags are
/// silently skipped by the callers.
pub fn map_type(ty: &str) -> (r: Option<String>)
    ensures
        match r {
            Some(s) => map_type_spec(ty@) == Some(s@),
            None => map_type_spec(ty@) is None,
        },
{
    let mut ft: String = String::from_str("f");
    ft.append("32");
    if crate::strutil::str_eq(ty, "FIELD_FLOAT") {
        Some(ft)
    } else if crate::strutil::str_eq(ty, "FIELD_STRING") {
        Some(String::from_str("string"))
    } else if crate::strutil::str_eq(ty, "FIELD_BOOLEAN") {
        Some(String::from_str("bool"))
    } else if crate::strutil::str_eq(ty, "FIELD_INTEGER") {
        Some(String::from_str("bool"))
    } else if crate::strutil::str_eq(ty, "FIELD_COLOR32") {
        Some(String::from_str("color"))
    } else if crate::strutil::str_eq(ty, "FIELD_VECTOR") {
        Some(String::from_str("vector"))
    } else {
        None
    }
}

// ---------------------------------------------------------------------------
// Data-description blocks.
// ---------------------------------------------------------------------------

/// The hint of one key-field invocation whose marker starts at `k` in the
/// block: the text up to the closing parenthesis, split on commas, yields
/// the tag and the quoted property name as its second and third parts.
pub open spec fn keyfield_item(block: Seq<char>, class: Seq<char>, k: int) -> Seq<FoundTypeV> {
    let e2 = find_at(block, seq![')'], k + 1);
    if e2 < 0 {
        Seq::empty()
    } else {
        let parts = split_comma(block.subrange(k + 1, e2));
        if parts.len() < 3 {
            Seq::empty()
        } else {
            let ty_raw = trim_spec(parts[1]);
            let name = trim_quotes_spec(trim_spec(parts[2]));
            match map_type_spec(ty_raw) {
                Some(t) => seq![FoundTypeV { class: class, name: name, ty: t }],
                None => Seq::empty(),
            }
        }
    }
}

/// Every key-field hint of the block whose marker starts at or after `from`.
pub open spec fn keyfields_from(block: Seq<char>, class: Seq<char>, from: int) -> Seq<FoundTypeV>
    decreases block.len() - from,
{
    let k = find_at(block, keyfield_marker(), from);
    if from <= k < block.len() {
        keyfield_item(block, class, k) + keyfields_from(block, class, k + 1)
    } else {
        Seq::empty()
    }
}

/// The hints of the block whose begin marker starts at `b`: the block runs
/// to the first end marker, its class name sits between the marker's open
/// parenthesis and the first closing one, trimmed.
pub open spec fn block_items(code: Seq<char>, b: int) -> Seq<FoundTypeV> {
    let e = find_at(code, end_marker(), b);
    if e < 0 {
        Seq::empty()
    } else {
        let block = code.subrange(b, e);
        let rp = find_at(block, seq![')'], 0);
        if rp < begin_marker().len() {
            Seq::empty()
        } else {
            let class = trim_spec(block.subrange(begin_marker().len() as int, rp));
            keyfields_from(block, class, 0)
        }
    }
}

/// The hints of every data-description block at or after `from`.
pub open spec fn scan_blocks(code: Seq<char>, from: int) -> Seq<FoundTypeV>
    decreases code.len() - from,
{
    let b = find_at(code, begin_marker(), from);
    if from <= b < code.len() {
        block_items(code, b) + scan_blocks(code, b + 1)
    } else {
        Seq::empty()
    }
}

/// All key-field hints of a source unit.
pub open spec fn data_desc_fields_spec(code: Seq<char>) -> Seq<FoundTypeV> {
    scan_blocks(code, 0)
}

/// Scan a source unit for data-description blocks and extract their typed
/// key-field declarations, as `data_desc_fields_spec` describes.
pub fn find_data_desc_fields(code: &str) -> (r: Vec<FoundType>)
    ensures
        r@.map_values(|t: FoundType| t@) == data_desc_fields_spec(code@),
{
    let cv = chars_of(code);
    let begin = chars_of("BEGIN_DATADESC(");
    let endm = chars_of("END_DATADESC");
    proof {
        reveal_strlit("BEGIN_DATADESC(");
    }
    let mut out: Vec<FoundType> = Vec::new();
    let cvn: usize = cv.len();
    let mut from: usize = 0;
    loop
        invariant
            from <= cv@.len(),
            cvn == cv@.len(),
            cv@ == code@,
            begin@ == begin_marker(),
            endm@ == end_marker(),
            begin@.len() == 15,
            data_desc_fields_spec(code@) == out@.map_values(|t: FoundType| t@) + scan_blocks(
                cv@,
                from as int,
            ),
        decreases cv@.len() - from,
    {
        let next = find_chars_from(&cv, &begin, from);
        match next {
            None => {
                assert(scan_blocks(cv@, from as int) =~= Seq::<FoundTypeV>::empty());
                assert(out@.map_values(|t: FoundType| t@) + Seq::<FoundTypeV>::empty()
                    =~= out@.map_values(|t: FoundType| t@));
                return out;
            },
            Some(b) => {
                proof {
                    lemma_find_at(cv@, begin@, from as int);
                }
                assert(b < cv@.len());
                let ghost pre = out@.map_values(|t: FoundType| t@);
                emit_block(&mut out, &cv, b, &endm);
                assert(scan_blocks(cv@, from as int) == block_items(cv@, b as int) + scan_blocks(
                    cv@,
                    b + 1 as int,
                ));
                assert(pre + scan_blocks(cv@, from as int) =~= out@.map_values(|t: FoundType| t@)
                    + scan_blocks(cv@, b + 1 as int));
                from = b + 1;
            },
        }
    }
}

/// Extract the hints of one block, appending them to the output.
fn emit_block(out: &mut Vec<FoundType>, cv: &Vec<char>, b: usize, endm: &Vec<char>)
    requires
        b < cv@.len(),
        endm@ == end_marker(),
    ensures
        final(out)@.map_values(|t: FoundType| t@) == old(out)@.map_values(|t: FoundType| t@)
            + block_items(cv@, b as int),
{
    let ghost pre = out@.map_values(|t: FoundType| t@);
    let e_opt = find_chars_from(cv, endm, b);
    match e_opt {
        None => {
            assert(block_items(cv@, b as int) =~= Seq::<FoundTypeV>::empty());
            assert(pre + block_items(cv@, b as int) =~= pre);
        },
        Some(e) => {
            proof {
                reveal_strlit("END_DATADESC");
                lemma_find_at(cv@, endm@, b as int);
            }
            let block = subvec(cv, b, e);
            let rparen: Vec<char> = vec![')'];
            assert(rparen@ =~= seq![')']);
            let rp_opt = find_chars_from(&block, &rparen, 0);
            match rp_opt {
                None => {
                    assert(cv@.subrange(b as int, find_at(cv@, end_marker(), b as int))
                        == block@);
                    assert(find_at(block@, seq![')'], 0) == -1);
                    assert(block_items(cv@, b as int) =~= Seq::<FoundTypeV>::empty());
                    assert(pre + block_items(cv@, b as int) =~= pre);
                },
                Some(rp) => {
                    proof {
                        lemma_find_at(block@, rparen@, 0);
                        reveal_strlit("BEGIN_DATADESC(");
                    }
                    assert(cv@.subrange(b as int, find_at(cv@, end_marker(), b as int))
                        == block@);
                    assert(find_at(block@, seq![')'], 0) == rp as int);
                    if rp < 15 {
                        assert(block_items(cv@, b as int) =~= Seq::<FoundTypeV>::empty());
                        assert(pre + block_items(cv@, b as int) =~= pre);
                    } else {
                        let class_chars = trim_vec(&subvec(&block, 15, rp));
                        let class = string_from_chars(&class_chars);
                        assert(class@ == trim_spec(block@.subrange(
                            begin_marker().len() as int,
                            rp as int,
                        )));
                        emit_keyfields(out, &block, &class);
                        assert(block_items(cv@, b as int) == keyfields_from(
                            block@,
                            class@,
                            0,
                        ));
                    }
                },
            }
        },
    }
}

/// Extract every key-field hint of one block, appending them to the output.
fn emit_keyfields(out: &mut Vec<FoundType>, block: &Vec<char>, class: &String)
    ensures
        final(out)@.map_values(|t: FoundType| t@) == old(out)@.map_values(|t: FoundType| t@)
            + keyfields_from(block@, class@, 0),
{
    let kf = chars_of("DEFINE_KEYFIELD(");
    proof {
        reveal_strlit("DEFINE_KEYFIELD(");
    }
    let ghost pre = out@.map_values(|t: FoundType| t@);
    let bn: usize = block.len();
    let mut kfrom: usize = 0;
    loop
        invariant
            kfrom <= block@.len(),
            bn == block@.len(),
            kf@ == keyfield_marker(),
            kf@.len() == 16,
            pre == old(out)@.map_values(|t: FoundType| t@),
            pre + keyfields_from(block@, class@, 0) == out@.map_values(|t: FoundType| t@)
                + keyfields_from(block@, class@, kfrom as int),
        decreases block@.len() - kfrom,
    {
        let next = find_chars_from(block, &kf, kfrom);
        match next {
            None => {
                assert(keyfields_from(block@, class@, kfrom as int) =~= Seq::<
                    FoundTypeV,
                >::empty());
                assert(out@.map_values(|t: FoundType| t@) + Seq::<FoundTypeV>::empty()
                    =~= out@.map_values(|t: FoundType| t@));
                return ;
            },
            Some(k) => {
                proof {
                    lemma_find_at(block@, kf@, kfrom as int);
                }
                assert(k < block@.len());
                let ghost mid = out@.map_values(|t: FoundType| t@);
                emit_one_keyfield(out, block, class, k);
                assert(keyfields_from(block@, class@, kfrom as int) == keyfield_item(
                    block@,
                    class@,
                    k as int,
                ) + keyfields_from(block@, class@, k + 1 as int));
                assert(mid + keyfields_from(block@, class@, kfrom as int) =~= out@.map_values(
                    |t: FoundType| t@,
                ) + keyfields_from(block@, class@, k + 1 as int));
                kfrom = k + 1;
            },
        }
    }
}

/// Extract the hint, if any, of the key-field invocation at `k`.
fn emit_one_keyfield(out: &mut Vec<FoundType>, block: &Vec<char>, class: &String, k: usize)
    requires
        k < block@.len(),
    ensures
        final(out)@.map_values(|t: FoundType| t@) == old(out)@.map_values(|t: FoundType| t@)
            + keyfield_item(block@, class@, k as int),
{
    let ghost pre = out@.map_values(|t: FoundType| t@);
    let bn: usize = block.len();
    let rparen: Vec<char> = vec![')'];
    assert(rparen@ =~= seq![')']);
    let e2_opt = find_chars_from(block, &rparen, k + 1);
    match e2_opt {
        None => {
            assert(rparen@ == seq![')']);
            assert(find_at(block@, seq![')'], k as int + 1) == -1);
            assert(keyfield_item(block@, class@, k as int) =~= Seq::<FoundTypeV>::empty());
            assert(pre + keyfield_item(block@, class@, k as int) =~= pre);
        },
        Some(e2) => {
            proof {
                lemma_find_at(block@, rparen@, k + 1 as int);
            }
            let body = subvec(block, k + 1, e2);
            let parts = split_comma_vec(&body);
            assert(find_at(block@, seq![')'], k as int + 1) == e2 as int);
            assert(block@.subrange(k as int + 1, e2 as int) == body@);
            if parts.len() < 3 {
                assert(split_comma(body@).len() < 3) by {
                    assert(parts@.map_values(|p: Vec<char>| p@).len() == parts@.len());
                }
                assert(keyfield_item(block@, class@, k as int) =~= Seq::<FoundTypeV>::empty());
                assert(pre + keyfield_item(block@, class@, k as int) =~= pre);
            } else {
                proof {
                    assert(parts@.map_values(|p: Vec<char>| p@).len() == parts@.len());
                    assert(parts@.map_values(|p: Vec<char>| p@)[1] == parts@[1]@);
                    assert(parts@.map_values(|p: Vec<char>| p@)[2] == parts@[2]@);
                }
                let ty_chars = trim_vec(&parts[1]);
                let name_chars = trim_quotes_vec(&trim_vec(&parts[2]));
                let ty_str = string_from_chars(&ty_chars);
                let mapped = map_type(ty_str.as_str());
                match mapped {
                    Some(t) => {
                        let item = FoundType {
                            class: class.clone(),
                            name: string_from_chars(&name_chars),
                            ty: t,
                        };
                        let ghost iv = item@;
                        out.push(item);
                        proof {
                            let parts_spec = split_comma(body@);
                            assert(ty_chars@ == trim_spec(parts_spec[1]));
                            assert(name_chars@ == trim_quotes_spec(trim_spec(parts_spec[2])));
                            assert(map_type_spec(trim_spec(parts_spec[1])) == Some(iv.ty));
                            assert(iv.class == class@);
                            assert(iv.name == trim_quotes_spec(trim_spec(parts_spec[2])));
                        }
                        assert(out@.map_values(|t: FoundType| t@) =~= pre.push(iv));
                        assert(keyfield_item(block@, class@, k as int) =~= seq![iv]);
                        assert(pre + keyfield_item(block@, class@, k as int) =~= pre.push(iv));
                    },
                    None => {
                        assert(keyfield_item(block@, class@, k as int) =~= Seq::<
                            FoundTypeV,
                        >::empty());
                        assert(pre + keyfield_item(block@, class@, k as int) =~= pre);
                    },
                }
            }
        },
    }
}

// ---------------------------------------------------------------------------
// Conversion-call classifier.
// ---------------------------------------------------------------------------

/// The hints that the fixed conversion patterns yield for one matched key
/// inside a property-deserialization body: each pattern found anywhere in
/// the consequence text emits one hint, in table order; the key name loses
/// its surrounding quotes.
pub open spec fn conversion_hints_spec(
    class: Seq<char>,
    raw_name: Seq<char>,
    body: Seq<char>,
) -> Seq<FoundTypeV> {
    let name = trim_quotes_spec(raw_name);
    (if contains_seq(body, "if (val)"@) {
        seq![FoundTypeV { class: class, name: name, ty: "bool"@ }]
    } else {
        Seq::empty()
    }) + (if contains_seq(body, "atoi"@) {
        seq![FoundTypeV { class: class, name: name, ty: "i32"@ }]
    } else {
        Seq::empty()
    }) + (if contains_seq(body, "UTIL_StringToColor32"@) {
        seq![FoundTypeV { class: class, name: name, ty: "color"@ }]
    } else {
        Seq::empty()
    }) + (if contains_seq(body, "UTIL_StringToVector"@) {
        seq![FoundTypeV { class: class, name: name, ty: "vector"@ }]
    } else {
        Seq::empty()
    }) + (if contains_seq(body, "AllocPooledString"@) {
        seq![FoundTypeV { class: class, name: name, ty: "string"@ }]
    } else {
        Seq::empty()
    })
}

/// Classify the conversion calls of one consequence region, emitting one
/// hint per matched pattern; a region may match several.
pub fn conversion_hints(class: &str, raw_name: &str, body: &str) -> (r: Vec<FoundType>)
    ensures
        r@.map_values(|t: FoundType| t@) == conversion_hints_spec(class@, raw_name@, body@),
{
    let name_chars = trim_quotes_vec(&chars_of(raw_name));
    let name = string_from_chars(&name_chars);
    let mut out: Vec<FoundType> = Vec::new();
    if contains_str(body, "if (val)") {
        out.push(
            FoundType {
                class: class.to_owned(),
                name: name.clone(),
                ty: String::from_str("bool"),
            },
        );
    }
    if contains_str(body, "atoi") {
        out.push(
            FoundType {
                class: class.to_owned(),
                name: name.clone(),
                ty: String::from_str("i32"),
            },
        );
    }
    if contains_str(body, "UTIL_StringToColor32") {
        out.push(
            FoundType {
                class: class.to_owned(),
                name: name.clone(),
                ty: String::from_str("color"),
            },
        );
    }
    if contains_str(body, "UTIL_StringToVector") {
        out.push(
            FoundType {
                class: class.to_owned(),
                name: name.clone(),
                ty: String::from_str("vector"),
            },
        );
    }
    if contains_str(body, "AllocPooledString") {
        out.push(
            FoundType {
                class: class.to_owned(),
                name: name.clone(),
                ty: String::from_str("string"),
            },
        );
    }
    assert(out@.map_values(|t: FoundType| t@) =~= conversion_hints_spec(
        class@,
        raw_name@,
        body@,
    ));
    out
}

// ---------------------------------------------------------------------------
// Inheritance merging.
// ---------------------------------------------------------------------------

/// Index of the first merged entry with the given class name, or -1.
pub open spec fn inherit_index(acc: Seq<InheritV>, name: Seq<char>) -> int
    decreases acc.len(),
{
    if acc.len() == 0 {
        -1
    } else if acc[0].name == name {
        0
    } else {
        let r = inherit_index(acc.skip(1), name);
        if r < 0 {
            -1
        } else {
            r + 1
        }
    }
}

/// Merge one (class, base) pair: a new class opens an entry, a repeated one
/// appends its base in encounter order.
pub open spec fn add_inherit_pair(acc: Seq<InheritV>, p: (Seq<char>, Seq<char>)) -> Seq<InheritV> {
    let j = inherit_index(acc, p.0);
    if j < 0 {
        acc.push(InheritV { name: p.0, inherits: seq![p.1] })
    } else {
        acc.update(j, InheritV { name: p.0, inherits: acc[j].inherits.push(p.1) })
    }
}

/// Merge every (class, base) pair, in order.
pub open spec fn merge_inherits_spec(pairs: Seq<(Seq<char>, Seq<char>)>) -> Seq<InheritV>
    decreases pairs.len(),
{
    if pairs.len() == 0 {
        Seq::empty()
    } else {
        add_inherit_pair(merge_inherits_spec(pairs.drop_last()), pairs.last())
    }
}

/// What `inherit_index` returns.
proof fn lemma_inherit_index_char(acc: Seq<InheritV>, name: Seq<char>)
    ensures
        inherit_index(acc, name) == -1 ==> forall|k: int|
            0 <= k < acc.len() ==> acc[k].name != name,
        inherit_index(acc, name) >= 0 ==> 0 <= inherit_index(acc, name) < acc.len()
            && acc[inherit_index(acc, name)].name == name,
        inherit_index(acc, name) >= 0 ==> forall|k: int|
            0 <= k < inherit_index(acc, name) ==> acc[k].name != name,
    decreases acc.len(),
{
    if acc.len() > 0 && acc[0].name != name {
        lemma_inherit_index_char(acc.skip(1), name);
        assert forall|k: int| 1 <= k < acc.len() implies acc.skip(1)[k - 1] == acc[k] by {}
    }
}

/// Merge declared (class, base) pairs, in encounter order, into one entry
/// per class holding its bases in order.
pub fn merge_inherit_pairs(pairs: &Vec<(String, String)>) -> (r: Vec<Inherit>)
    ensures
        r@.map_values(|e: Inherit| e@) == merge_inherits_spec(
            pairs@.map_values(|p: (String, String)| (p.0@, p.1@)),
        ),
{
    let ghost pv = pairs@.map_values(|p: (String, String)| (p.0@, p.1@));
    let mut out: Vec<Inherit> = Vec::new();
    let n: usize = pairs.len();
    let mut i: usize = 0;
    assert(out@.map_values(|e: Inherit| e@) =~= merge_inherits_spec(pv.take(0)));
    while i < n
        invariant
            i <= n,
            n == pairs@.len(),
            pv == pairs@.map_values(|p: (String, String)| (p.0@, p.1@)),
            out@.map_values(|e: Inherit| e@) == merge_inherits_spec(pv.take(i as int)),
        decreases n - i,
    {
        proof {
            assert(pv.take(i + 1 as int).drop_last() =~= pv.take(i as int));
            assert(pv.take(i + 1 as int).last() == pv[i as int]);
        }
        let ghost acc = out@.map_values(|e: Inherit| e@);
        let name = &pairs[i].0;
        let base = &pairs[i].1;
        let m: usize = out.len();
        let mut j: usize = 0;
        while j < m && !crate::strutil::str_eq(out[j].name.as_str(), name.as_str())
            invariant
                j <= m,
                m == out@.len(),
                acc == out@.map_values(|e: Inherit| e@),
                name@ == pv[i as int].0,
                forall|k: int| 0 <= k < j ==> acc[k].name != name@,
            decreases m - j,
        {
            assert(acc[j as int].name == out@[j as int]@.name);
            j = j + 1;
        }
        proof {
            lemma_inherit_index_char(acc, name@);
            if j < m {
                assert(acc[j as int].name == out@[j as int]@.name);
                assert(inherit_index(acc, name@) == j as int);
            } else {
                assert(inherit_index(acc, name@) == -1);
            }
        }
        if j < m {
            let mut entry = out.remove(j);
            entry.inherits.push(base.clone());
            assert(entry@ == InheritV {
                name: acc[j as int].name,
                inherits: acc[j as int].inherits.push(base@),
            }) by {
                assert(entry@.inherits =~= acc[j as int].inherits.push(base@));
            }
            out.insert(j, entry);
            assert(out@.map_values(|e: Inherit| e@) =~= acc.update(
                j as int,
                InheritV { name: pv[i as int].0, inherits: acc[j as int].inherits.push(base@) },
            ));
        } else {
            let mut bases: Vec<String> = Vec::new();
            bases.push(base.clone());
            let entry = Inherit { name: name.clone(), inherits: bases };
            assert(entry@.inherits =~= seq![base@]);
            out.push(entry);
            assert(out@.map_values(|e: Inherit| e@) =~= acc.push(
                InheritV { name: pv[i as int].0, inherits: seq![base@] },
            ));
        }
        i = i + 1;
    }
    assert(pv.take(n as int) =~= pv);
    out
}

} // verus!
