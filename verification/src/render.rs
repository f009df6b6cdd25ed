//! The renderer: resolves which template a document uses and substitutes the
//! document's fields into the template's placeholders.
//!
//! A placeholder is written `{{field}}`. Every placeholder must name a known
//! field: a front-matter key, or the reserved field `content`, which stands
//! for the document body (and shadows a front-matter field of that name).
//! An unknown placeholder, or a `{{` with no closing `}}`, is an error, so a
//! typo in a template cannot pass silently. All other bytes of the template
//! are copied unchanged.
//!
//! A document that names no template resolves to the template `default`; a
//! resolved name absent from the store is a missing-template error.

use vstd::prelude::*;
use crate::bytes::{bytes_eq, subvec};
use crate::document::{spec_assoc, Document, DocumentView};
use crate::error::{
    is_decoding_error, is_missing_template_error, ErrorKind, FerrumError, FerrumResult,
};
use crate::template::{spec_lookup, TemplateStore, TemplateView};

verus! {

/// `{`, the opening placeholder byte.
pub const LB: u8 = 123;

/// `}`, the closing placeholder byte.
pub const RB: u8 = 125;

/// `content`, the reserved field naming the document body.
pub open spec fn spec_content_key() -> Seq<u8> {
    seq![99u8, 111u8, 110u8, 116u8, 101u8, 110u8, 116u8]
}

/// `default`, the template name used when a document names none.
pub open spec fn spec_default_name() -> Seq<u8> {
    seq![100u8, 101u8, 102u8, 97u8, 117u8, 108u8, 116u8]
}

/// The value of field `name` in the substitution context of `doc`:
/// the body for `content`, else the front-matter field.
pub open spec fn spec_ctx_get(doc: DocumentView, name: Seq<u8>) -> Option<Seq<u8>> {
    if name == spec_content_key() {
        Some(doc.body)
    } else {
        spec_assoc(doc.metadata, name)
    }
}

/// The index of the first `}}` pair of `t` at or after `i`, if any.
pub open spec fn find_close_from(t: Seq<u8>, i: int) -> Option<int>
    decreases t.len() - i,
{
    if i < 0 || i + 1 >= t.len() {
        None
    } else if t[i] == RB && t[i + 1] == RB {
        Some(i)
    } else {
        find_close_from(t, i + 1)
    }
}

/// `find_close_from` returns exactly the first `}}` pair at or after `i`.
pub proof fn lemma_find_close_is(t: Seq<u8>, i: int, e: int)
    requires
        0 <= i <= e,
        e + 1 < t.len(),
        t[e] == RB,
        t[e + 1] == RB,
        forall|k: int| i <= k < e ==> !(#[trigger] t[k] == RB && t[k + 1] == RB),
    ensures
        find_close_from(t, i) == Some(e),
    decreases e - i,
{
    if i < e {
        lemma_find_close_is(t, i + 1, e);
    }
}

/// `find_close_from` returns `None` when no `}}` pair stands at or after `i`.
pub proof fn lemma_find_close_none(t: Seq<u8>, i: int)
    requires
        forall|k: int| i <= k && k + 1 < t.len() ==> !(#[trigger] t[k] == RB && t[k + 1] == RB),
    ensures
        find_close_from(t, i) is None,
    decreases t.len() - i,
{
    if 0 <= i && i + 1 < t.len() {
        lemma_find_close_none(t, i + 1);
    }
}

/// Whatever `find_close_from` returns is a `}}` pair, and the first one.
pub proof fn lemma_find_close_props(t: Seq<u8>, i: int)
    requires
        0 <= i,
    ensures
        match find_close_from(t, i) {
            Some(e) => i <= e && e + 1 < t.len() && t[e] == RB && t[e + 1] == RB && (forall|k: int|
                i <= k < e ==> !(#[trigger] t[k] == RB && t[k + 1] == RB)),
            None => forall|k: int| i <= k && k + 1 < t.len() ==> !(#[trigger] t[k] == RB && t[k + 1] == RB),
        },
    decreases t.len() - i,
{
    if i + 1 < t.len() && !(t[i] == RB && t[i + 1] == RB) {
        lemma_find_close_props(t, i + 1);
    }
}

/// The template `t` with every placeholder replaced by its field value in
/// the context of `doc`; `None` when a placeholder is unclosed or names an
/// unknown field.
pub open spec fn spec_subst(t: Seq<u8>, doc: DocumentView) -> Option<Seq<u8>>
    decreases t.len(),
    via spec_subst_decreases
{
    if t.len() == 0 {
        Some(Seq::empty())
    } else if t.len() >= 2 && t[0] == LB && t[1] == LB {
        match find_close_from(t, 2) {
            None => None,
            Some(e) => {
                let name = t.subrange(2, e);
                match spec_ctx_get(doc, name) {
                    None => None,
                    Some(val) => match spec_subst(t.subrange(e + 2, t.len() as int), doc) {
                        None => None,
                        Some(r) => Some(val + r),
                    },
                }
            },
        }
    } else {
        match spec_subst(t.drop_first(), doc) {
            None => None,
            Some(r) => Some(seq![t[0]] + r),
        }
    }
}

#[via_fn]
proof fn spec_subst_decreases(t: Seq<u8>, doc: DocumentView) {
    lemma_find_close_props(t, 2);
}

/// The name the document resolves against the store: its own template
/// field when set, else `default`.
pub open spec fn spec_resolve_name(doc: DocumentView) -> Seq<u8> {
    match doc.template_name {
        Some(n) => n,
        None => spec_default_name(),
    }
}

/// The bytes rendering `doc` against the store `ts` produces: the resolved
/// template's content with `doc`'s fields substituted. `None` when the
/// resolved template is absent or substitution fails.
pub open spec fn spec_render_result(doc: DocumentView, ts: Seq<TemplateView>) -> Option<Seq<u8>> {
    match spec_lookup(ts, spec_resolve_name(doc)) {
        None => None,
        Some(t) => spec_subst(t, doc),
    }
}

/// Rendering is a function of the document and the store alone: two renders
/// with unchanged inputs yield byte-identical output.
pub proof fn lemma_render_deterministic(
    doc: DocumentView,
    ts: Seq<TemplateView>,
    r1: Seq<u8>,
    r2: Seq<u8>,
)
    requires
        spec_render_result(doc, ts) == Some(r1),
        spec_render_result(doc, ts) == Some(r2),
    ensures
        r1 == r2,
{
}

/// The first `}}` pair of `t` at or after `start`, as `find_close_from` has it.
fn find_close(t: &[u8], start: usize) -> (r: Option<usize>)
    ensures
        match r {
            Some(e) => find_close_from(t@, start as int) == Some(e as int),
            None => find_close_from(t@, start as int) is None,
        },
{
    let n = t.len();
    if n < 2 || start >= n - 1 {
        proof {
            lemma_find_close_none(t@, start as int);
        }
        return None;
    }
    let mut i: usize = start;
    while i < n - 1
        invariant
            n == t@.len(),
            n >= 2,
            start <= i <= n - 1,
            forall|k: int| start <= k < i ==> !(#[trigger] t@[k] == RB && t@[k + 1] == RB),
        decreases n - i,
    {
        if t[i] == RB && t[i + 1] == RB {
            proof {
                lemma_find_close_is(t@, start as int, i as int);
            }
            return Some(i);
        }
        i += 1;
    }
    proof {
        lemma_find_close_none(t@, start as int);
    }
    None
}

/// The `content` field key, as bytes.
pub fn content_key() -> (r: Vec<u8>)
    ensures
        r@ == spec_content_key(),
{
    let mut v: Vec<u8> = Vec::new();
    v.push(99);
    v.push(111);
    v.push(110);
    v.push(116);
    v.push(101);
    v.push(110);
    v.push(116);
    proof {
        assert(v@ =~= spec_content_key());
    }
    v
}

/// The `default` template name, as bytes.
pub fn default_template_name() -> (r: Vec<u8>)
    ensures
        r@ == spec_default_name(),
{
    let mut v: Vec<u8> = Vec::new();
    v.push(100);
    v.push(101);
    v.push(102);
    v.push(97);
    v.push(117);
    v.push(108);
    v.push(116);
    proof {
        assert(v@ =~= spec_default_name());
    }
    v
}

/// The value of field `name` of `doc`, as `spec_ctx_get` has it.
fn ctx_get(doc: &Document, name: &[u8]) -> (r: Option<Vec<u8>>)
    ensures
        match r {
            Some(v) => spec_ctx_get(doc@, name@) == Some(v@),
            None => spec_ctx_get(doc@, name@) is None,
        },
{
    let ck = content_key();
    if bytes_eq(name, ck.as_slice()) {
        let b = subvec(doc.body.as_slice(), 0, doc.body.len());
        proof {
            assert(b@ =~= doc.body@);
        }
        Some(b)
    } else {
        crate::document::assoc_get(&doc.metadata, name)
    }
}

/// Joins already-substituted output onto the outcome of the rest.
pub open spec fn spec_append_opt(p: Seq<u8>, o: Option<Seq<u8>>) -> Option<Seq<u8>> {
    match o {
        None => None,
        Some(s) => Some(p + s),
    }
}

/// Substitutes `doc`'s fields into the placeholders of `t`, as `spec_subst`
/// has it; `None` when a placeholder is unclosed or names an unknown field.
fn substitute(t: &[u8], doc: &Document) -> (r: Option<Vec<u8>>)
    ensures
        match r {
            Some(out) => spec_subst(t@, doc@) == Some(out@),
            None => spec_subst(t@, doc@) is None,
        },
{
    let n = t.len();
    let mut out: Vec<u8> = Vec::new();
    let mut pos: usize = 0;
    proof {
        assert(t@.subrange(0, n as int) =~= t@);
        assert(out@ =~= Seq::<u8>::empty());
    }
    while pos < n
        invariant
            n == t@.len(),
            0 <= pos <= n,
            spec_subst(t@, doc@) == spec_append_opt(
                out@,
                spec_subst(t@.subrange(pos as int, n as int), doc@),
            ),
        decreases n - pos,
    {
        let ghost sub = t@.subrange(pos as int, n as int);
        let ghost out0 = out@;
        if t[pos] == LB && pos + 1 < n && t[pos + 1] == LB {
            match find_close(t, pos + 2) {
                None => {
                    proof {
                        lemma_find_close_props(t@, pos + 2);
                        assert forall|k: int| 2 <= k && k + 1 < sub.len() implies !(#[trigger] sub[k]
                            == RB && sub[k + 1] == RB) by {
                            assert(sub[k] == t@[pos + k]);
                            assert(sub[k + 1] == t@[pos + k + 1]);
                        }
                        lemma_find_close_none(sub, 2);
                        assert(spec_subst(sub, doc@) is None);
                    }
                    return None;
                },
                Some(e) => {
                    proof {
                        lemma_find_close_props(t@, pos + 2);
                        assert(pos + 2 <= e && e + 1 < n);
                        assert(sub[e - pos] == t@[e as int] && sub[e - pos + 1] == t@[e + 1]);
                        assert forall|k: int| 2 <= k < e - pos implies !(#[trigger] sub[k] == RB && sub[k
                            + 1] == RB) by {
                            assert(sub[k] == t@[pos + k]);
                            assert(sub[k + 1] == t@[pos + k + 1]);
                        }
                        lemma_find_close_is(sub, 2, e - pos);
                    }
                    let name = subvec(t, pos + 2, e);
                    proof {
                        assert(name@ =~= sub.subrange(2, e - pos));
                    }
                    match ctx_get(doc, name.as_slice()) {
                        None => {
                            proof {
                                assert(spec_subst(sub, doc@) is None);
                            }
                            return None;
                        },
                        Some(val) => {
                            crate::bytes::push_all(&mut out, val.as_slice());
                            proof {
                                let rest = sub.subrange(e - pos + 2, sub.len() as int);
                                assert(rest =~= t@.subrange(e + 2, n as int));
                                assert(spec_subst(sub, doc@) == spec_append_opt(
                                    val@,
                                    spec_subst(rest, doc@),
                                ));
                                match spec_subst(rest, doc@) {
                                    None => {
                                        assert(spec_subst(t@, doc@) is None);
                                    },
                                    Some(rr) => {
                                        assert(out0 + (val@ + rr) =~= (out0 + val@) + rr);
                                    },
                                }
                            }
                            pos = e + 2;
                        },
                    }
                },
            }
        } else {
            let c = t[pos];
            out.push(c);
            proof {
                assert(sub.len() >= 1 && sub[0] == t@[pos as int]);
                assert(!(sub.len() >= 2 && sub[0] == LB && sub[1] == LB)) by {
                    if sub.len() >= 2 {
                        assert(sub[1] == t@[pos + 1]);
                    }
                }
                let rest = sub.drop_first();
                assert(rest =~= t@.subrange(pos + 1, n as int));
                assert(spec_subst(sub, doc@) == spec_append_opt(
                    seq![sub[0]],
                    spec_subst(rest, doc@),
                ));
                match spec_subst(rest, doc@) {
                    None => {
                        assert(spec_subst(t@, doc@) is None);
                    },
                    Some(rr) => {
                        assert(out0 + (seq![sub[0]] + rr) =~= (out0 + seq![sub[0]]) + rr);
                        assert(out@ =~= out0 + seq![sub[0]]);
                    },
                }
            }
            pos += 1;
        }
    }
    proof {
        let sub = t@.subrange(n as int, n as int);
        assert(sub.len() == 0);
        assert(spec_subst(sub, doc@) == Some(Seq::<u8>::empty()));
        assert(out@ + Seq::<u8>::empty() =~= out@);
    }
    Some(out)
}

/// Renders `doc` against the template store.
///
/// Resolves the document's template name (or `default`), substitutes the
/// document's fields into the template, and returns the output bytes.
/// A resolved name absent from the store is a missing-template error; an
/// unclosed or unknown placeholder is a decoding error naming the template.
pub fn render(doc: &Document, templates: &TemplateStore) -> (r: FerrumResult<Vec<u8>>)
    ensures
        match r {
            Ok(out) => spec_render_result(doc@, templates@) == Some(out@),
            Err(e) => {
                &&& spec_render_result(doc@, templates@) is None
                &&& (spec_lookup(templates@, spec_resolve_name(doc@)) is None
                    ==> is_missing_template_error(e, spec_resolve_name(doc@)))
                &&& (spec_lookup(templates@, spec_resolve_name(doc@)) is Some
                    ==> is_decoding_error(e, spec_resolve_name(doc@)))
            },
        },
{
    let name: Vec<u8> = match &doc.template_name {
        Some(n) => {
            let c = subvec(n.as_slice(), 0, n.len());
            proof {
                assert(c@ =~= n@);
            }
            c
        },
        None => default_template_name(),
    };
    proof {
        assert(name@ == spec_resolve_name(doc@));
    }
    match templates.get(name.as_slice()) {
        None => {
            Err(
                FerrumError {
                    kind: ErrorKind::MissingTemplateError(name),
                    desc: "Template not found",
                    detail: None,
                },
            )
        },
        Some(content) => {
            match substitute(content.as_slice(), doc) {
                Some(out) => Ok(out),
                None => {
                    Err(
                        FerrumError {
                            kind: ErrorKind::DecodingError(name),
                            desc: "Error decoding file",
                            detail: None,
                        },
                    )
                },
            }
        },
    }
}

} // verus!
