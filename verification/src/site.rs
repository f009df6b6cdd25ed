//! The compute core of one site build: given the template files and the
//! document files as `(path, content)` pairs, produce every output file as a
//! `(path, content)` pair. The caller reads the source tree, hands the files
//! in, and writes the results out; every decision in between is made here.
//!
//! Fail-fast: the first error of any stage (duplicate template name, a
//! document that does not parse, duplicate output key, missing template,
//! bad placeholder) aborts the whole build.

use vstd::prelude::*;
use crate::document::{
    load_documents, meta_view, spec_all_parse, spec_batch_keys_distinct, spec_doc_of,
    spec_load_fails_at, Document,
};
use crate::error::{is_decoding_error, is_missing_template_error, FerrumError, FerrumResult};
use crate::paths::{output_path, spec_join};
use crate::render::{render, spec_render_result, spec_resolve_name};
use crate::template::{
    spec_lookup, spec_template_name_of, spec_template_names_distinct, TemplateStore, TemplateView,
};

verus! {

/// The store that a batch of template files builds: one template per file,
/// named by the filename's stem, in batch order.
pub open spec fn spec_store_of(files: Seq<(Seq<u8>, Seq<u8>)>) -> Seq<TemplateView> {
    files.map_values(
        |f: (Seq<u8>, Seq<u8>)| TemplateView { name: spec_template_name_of(f.0), content: f.1 },
    )
}

/// Holds when a whole build succeeds: template names are distinct, every
/// document parses, their output keys are distinct, and every document
/// renders against the store.
pub open spec fn spec_build_ok(tfv: Seq<(Seq<u8>, Seq<u8>)>, dfv: Seq<(Seq<u8>, Seq<u8>)>) -> bool {
    &&& spec_template_names_distinct(tfv)
    &&& spec_all_parse(dfv)
    &&& spec_batch_keys_distinct(dfv)
    &&& forall|i: int|
        0 <= i < dfv.len() ==> spec_render_result(
            spec_doc_of(dfv[i].1, dfv[i].0),
            spec_store_of(tfv),
        ) is Some
}

/// Holds when the build fails while rendering document `i`: every earlier
/// document renders, document `i` does not, and `e` is a missing-template
/// error when its resolved template is absent from the store, else a
/// decoding error naming the template.
pub open spec fn spec_render_fails_at(
    dfv: Seq<(Seq<u8>, Seq<u8>)>,
    tfv: Seq<(Seq<u8>, Seq<u8>)>,
    i: int,
    e: FerrumError,
) -> bool {
    &&& 0 <= i < dfv.len()
    &&& spec_render_result(spec_doc_of(dfv[i].1, dfv[i].0), spec_store_of(tfv)) is None
    &&& forall|j: int|
        0 <= j < i ==> spec_render_result(
            spec_doc_of(dfv[j].1, dfv[j].0),
            spec_store_of(tfv),
        ) is Some
    &&& (spec_lookup(spec_store_of(tfv), spec_resolve_name(spec_doc_of(dfv[i].1, dfv[i].0)))
        is None ==> is_missing_template_error(
        e,
        spec_resolve_name(spec_doc_of(dfv[i].1, dfv[i].0)),
    ))
    &&& (spec_lookup(spec_store_of(tfv), spec_resolve_name(spec_doc_of(dfv[i].1, dfv[i].0)))
        is Some ==> is_decoding_error(e, spec_resolve_name(spec_doc_of(dfv[i].1, dfv[i].0))))
}

/// Runs the compute core of one build over already-read files.
///
/// Returns one `(output path, output bytes)` pair per document, in document
/// order: the destination root joined with the document's key, and the
/// document rendered against the loaded template store. Returns `Ok`
/// exactly when every stage succeeds; otherwise the first failing stage's
/// error: a template-name collision, then the first document that does not
/// parse, then a document-key collision, then the first document that does
/// not render.
#[verifier::rlimit(60)]
pub fn build_site(
    template_files: &Vec<(Vec<u8>, Vec<u8>)>,
    document_files: &Vec<(Vec<u8>, Vec<u8>)>,
    dest: &[u8],
) -> (r: FerrumResult<Vec<(Vec<u8>, Vec<u8>)>>)
    ensures
        match r {
            Ok(outs) => {
                &&& spec_build_ok(meta_view(template_files@), meta_view(document_files@))
                &&& outs.len() == document_files.len()
                &&& forall|i: int|
                    0 <= i < document_files.len() ==> {
                        let dv = spec_doc_of(
                            meta_view(document_files@)[i].1,
                            meta_view(document_files@)[i].0,
                        );
                        (#[trigger] outs[i]).0@ == spec_join(dest@, dv.key) && spec_render_result(
                            dv,
                            spec_store_of(meta_view(template_files@)),
                        ) == Some(outs[i].1@)
                    }
            },
            Err(e) => {
                &&& !spec_build_ok(meta_view(template_files@), meta_view(document_files@))
                &&& {
                    ||| {
                        &&& !spec_template_names_distinct(meta_view(template_files@))
                        &&& e.kind is DuplicateKeyError
                    }
                    ||| {
                        &&& spec_template_names_distinct(meta_view(template_files@))
                        &&& exists|i: int|
                            spec_load_fails_at(meta_view(document_files@), i, e)
                    }
                    ||| {
                        &&& spec_template_names_distinct(meta_view(template_files@))
                        &&& spec_all_parse(meta_view(document_files@))
                        &&& !spec_batch_keys_distinct(meta_view(document_files@))
                        &&& e.kind is DuplicateKeyError
                    }
                    ||| {
                        &&& spec_template_names_distinct(meta_view(template_files@))
                        &&& spec_all_parse(meta_view(document_files@))
                        &&& spec_batch_keys_distinct(meta_view(document_files@))
                        &&& exists|i: int|
                            spec_render_fails_at(
                                meta_view(document_files@),
                                meta_view(template_files@),
                                i,
                                e,
                            )
                    }
                }
            },
        },
{
    let ghost tfv = meta_view(template_files@);
    let ghost dfv = meta_view(document_files@);
    let store = match TemplateStore::build(template_files) {
        Ok(s) => s,
        Err(e) => {
            return Err(e);
        },
    };
    proof {
        assert forall|i: int| 0 <= i < tfv.len() implies store@[i] == spec_store_of(tfv)[i] by {
            assert((#[trigger] store@[i]).name == spec_template_name_of(tfv[i].0));
        }
        assert(store@ =~= spec_store_of(tfv));
    }
    let docs: Vec<Document> = match load_documents(document_files) {
        Ok(d) => d,
        Err(e) => {
            proof {
                if exists|i: int| spec_load_fails_at(dfv, i, e) {
                    let i = choose|i: int| spec_load_fails_at(dfv, i, e);
                    assert(!crate::document::spec_doc_parses(dfv[i].1, dfv[i].0));
                    assert(!spec_all_parse(dfv));
                }
            }
            return Err(e);
        },
    };
    let n = docs.len();
    let mut outs: Vec<(Vec<u8>, Vec<u8>)> = Vec::new();
    let mut i: usize = 0;
    while i < n
        invariant
            n == docs.len(),
            n == document_files.len(),
            tfv == meta_view(template_files@),
            dfv == meta_view(document_files@),
            dfv.len() == n,
            store@ == spec_store_of(tfv),
            spec_template_names_distinct(tfv),
            spec_all_parse(dfv),
            spec_batch_keys_distinct(dfv),
            forall|j: int|
                0 <= j < n ==> #[trigger] docs[j]@ == spec_doc_of(dfv[j].1, dfv[j].0)
                    && docs[j].wf(),
            0 <= i <= n,
            outs.len() == i,
            forall|j: int|
                0 <= j < i ==> {
                    let dv = spec_doc_of(dfv[j].1, dfv[j].0);
                    (#[trigger] outs[j]).0@ == spec_join(dest@, dv.key) && spec_render_result(
                        dv,
                        spec_store_of(tfv),
                    ) == Some(outs[j].1@)
                },
        decreases n - i,
    {
        let out = match render(&docs[i], &store) {
            Ok(o) => o,
            Err(e) => {
                proof {
                    assert(docs@[i as int]@ == spec_doc_of(dfv[i as int].1, dfv[i as int].0));
                    assert(spec_render_result(spec_doc_of(dfv[i as int].1, dfv[i as int].0),
                        spec_store_of(tfv)) is None);
                    assert forall|j: int| 0 <= j < i implies spec_render_result(
                        spec_doc_of(dfv[j].1, dfv[j].0),
                        spec_store_of(tfv),
                    ) is Some by {
                        assert((#[trigger] outs[j]).0@ == spec_join(
                            dest@,
                            spec_doc_of(dfv[j].1, dfv[j].0).key,
                        ));
                    }
                    assert(spec_render_fails_at(dfv, tfv, i as int, e));
                }
                return Err(e);
            },
        };
        let path = output_path(dest, docs[i].key.as_slice());
        proof {
            assert(docs@[i as int]@.key == spec_doc_of(dfv[i as int].1, dfv[i as int].0).key);
        }
        outs.push((path, out));
        i += 1;
    }
    proof {
        assert forall|j: int| 0 <= j < dfv.len() implies spec_render_result(
            spec_doc_of(dfv[j].1, dfv[j].0),
            spec_store_of(tfv),
        ) is Some by {
            assert((#[trigger] outs@[j]).0@ == spec_join(
                dest@,
                spec_doc_of(dfv[j].1, dfv[j].0).key,
            ));
        }
    }
    Ok(outs)
}

} // verus!
