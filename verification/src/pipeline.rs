use vstd::prelude::*;
use crate::aggregate::{aggregate_entities, aggregate_spec, Entity, ObservedClass};
use crate::schema::{schemas_spec, synthesize_schemas, ClassSchema};

verus! {

// ---------------------------------------------------------------------------
// The corpus pipeline: decode map files, aggregate the decoded entities,
// synthesize the schemas. Decoding one buffer is deterministic, so the whole
// pipeline is a function of the file contents.
// ---------------------------------------------------------------------------

/// What decoding a map file yields: each entity's key/value string pairs in
/// file order, or nothing when the buffer is rejected. The result depends
/// on the bytes alone.
pub uninterp spec fn decoded_entities(data: Seq<u8>) -> Option<Seq<Seq<(Seq<char>, Seq<char>)>>>;

/// Relies on `vbsp::Bsp::read` to decode the buffer and on the entity
/// iteration of `vbsp::Entities`, which yields each entity's key/value
/// pairs in file order; both depend on the bytes alone.
#[verifier::external_body]
fn decode_bsp(data: &[u8]) -> (r: Result<Vec<Entity>, String>)
    ensures
        match r {
            Ok(es) => decoded_entities(data@) == Some(es@.map_values(|e: Entity| e@)),
            Err(_) => decoded_entities(data@) is None,
        },
{
    match vbsp::Bsp::read(data) {
        Ok(bsp) => Ok(
            bsp.entities.iter().map(
                |raw| Entity {
                    props: raw.properties().map(
                        |p: (&str, &str)| (p.0.to_string(), p.1.to_string()),
                    ).collect(),
                },
            ).collect(),
        ),
        Err(e) => Err(format!("{}", e)),
    }
}

/// Decode one map file's contents into its entity list, or an error message
/// when the decoder rejects the buffer.
pub fn decode_map(data: &[u8]) -> (r: Result<Vec<Entity>, String>)
    ensures
        match r {
            Ok(es) => decoded_entities(data@) == Some(es@.map_values(|e: Entity| e@)),
            Err(_) => decoded_entities(data@) is None,
        },
{
    decode_bsp(data)
}

/// The corpus of a file list: the decoded entities of each file that
/// decodes, concatenated in file order.
pub open spec fn corpus_spec(files: Seq<Seq<u8>>) -> Seq<Seq<(Seq<char>, Seq<char>)>>
    decreases files.len(),
{
    if files.len() == 0 {
        Seq::empty()
    } else {
        corpus_spec(files.drop_last()) + (match decoded_entities(files.last()) {
            Some(es) => es,
            None => Seq::empty(),
        })
    }
}

/// The indices of the files the decoder rejects, in order.
pub open spec fn failed_files_spec(files: Seq<Seq<u8>>) -> Seq<int>
    decreases files.len(),
{
    if files.len() == 0 {
        Seq::empty()
    } else {
        failed_files_spec(files.drop_last()) + (match decoded_entities(files.last()) {
            Some(_) => Seq::empty(),
            None => seq![files.len() - 1],
        })
    }
}

/// The deterministic schema output of a decoded corpus.
pub open spec fn corpus_schemas_spec(es: Seq<Seq<(Seq<char>, Seq<char>)>>) -> Seq<
    crate::schema::ClassSchemaV,
> {
    schemas_spec(aggregate_spec(es))
}

/// Synthesize the schemas of an already-decoded entity corpus.
pub fn schemas_for_entities(entities: &Vec<Entity>) -> (r: Vec<ClassSchema>)
    ensures
        r@.map_values(|c: ClassSchema| c@) == corpus_schemas_spec(
            entities@.map_values(|e: Entity| e@),
        ),
{
    let classes: Vec<ObservedClass> = aggregate_entities(entities);
    synthesize_schemas(&classes)
}

/// Run the whole pipeline over a list of map file contents: decode each
/// file, drop (and report) the ones the decoder rejects, aggregate every
/// decoded entity, and synthesize the deterministic schema list.
pub fn schemas_for_maps(files: &Vec<Vec<u8>>) -> (r: (Vec<ClassSchema>, Vec<usize>))
    ensures
        r.0@.map_values(|c: ClassSchema| c@) == corpus_schemas_spec(
            corpus_spec(files@.map_values(|f: Vec<u8>| f@)),
        ),
        r.1@.map_values(|u: usize| u as int) == failed_files_spec(
            files@.map_values(|f: Vec<u8>| f@),
        ),
{
    let ghost fv = files@.map_values(|f: Vec<u8>| f@);
    let mut entities: Vec<Entity> = Vec::new();
    let mut failed: Vec<usize> = Vec::new();
    let n: usize = files.len();
    let mut i: usize = 0;
    assert(entities@.map_values(|e: Entity| e@) =~= corpus_spec(fv.take(0)));
    assert(failed@.map_values(|u: usize| u as int) =~= failed_files_spec(fv.take(0)));
    while i < n
        invariant
            i <= n,
            n == files@.len(),
            fv == files@.map_values(|f: Vec<u8>| f@),
            entities@.map_values(|e: Entity| e@) == corpus_spec(fv.take(i as int)),
            failed@.map_values(|u: usize| u as int) == failed_files_spec(fv.take(i as int)),
        decreases n - i,
    {
        proof {
            assert(fv.take(i + 1 as int).drop_last() =~= fv.take(i as int));
            assert(fv.take(i + 1 as int).last() == fv[i as int]);
        }
        let decoded = decode_map(files[i].as_slice());
        match decoded {
            Ok(mut es) => {
                let ghost pre = entities@.map_values(|e: Entity| e@);
                let ghost esv = es@.map_values(|e: Entity| e@);
                entities.append(&mut es);
                assert(entities@.map_values(|e: Entity| e@) =~= pre + esv);
                assert(corpus_spec(fv.take(i + 1 as int)) == pre + esv);
                assert(failed_files_spec(fv.take(i + 1 as int)) =~= failed_files_spec(
                    fv.take(i as int),
                ));
            },
            Err(_) => {
                let ghost prefail = failed@.map_values(|u: usize| u as int);
                failed.push(i);
                assert(failed@.map_values(|u: usize| u as int) =~= prefail.push(i as int));
                assert(failed_files_spec(fv.take(i + 1 as int)) =~= prefail.push(i as int));
                assert(corpus_spec(fv.take(i + 1 as int)) =~= corpus_spec(fv.take(i as int)));
            },
        }
        i = i + 1;
    }
    assert(fv.take(n as int) =~= fv);
    let schemas = schemas_for_entities(&entities);
    (schemas, failed)
}

/// Idempotence of the pipeline: the schema output is a function of the map
/// file contents alone (decoding is deterministic and every later stage is
/// pure), so two runs over a byte-identical corpus produce identical,
/// identically-ordered schema lists.
pub proof fn lemma_pipeline_deterministic(files1: Seq<Seq<u8>>, files2: Seq<Seq<u8>>)
    requires
        files1 == files2,
    ensures
        corpus_schemas_spec(corpus_spec(files1)) == corpus_schemas_spec(corpus_spec(files2)),
{
}

} // verus!
