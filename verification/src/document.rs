//! The document model and parser.
//!
//! A document source file is split into front-matter metadata and a body.
//! The front-matter block, when present, starts with a `---` line at the very
//! beginning of the file, holds one `key: value` line per field, and is
//! closed by a second `---` line; everything after the closing line is the
//! body. A file that does not start with the `---` line has no front-matter:
//! its whole content is the body. An opening line without a closing line, or
//! a field line without a `:`, or a repeated field key, is a decoding error.
//!
//! A document's output key is derived from its source path alone: the
//! filename's stem, with a `YYYY-MM-DD-` date prefix stripped when present.

use vstd::prelude::*;
use crate::bytes::{
    bytes_eq, find_from, lemma_find_from_is, lemma_find_from_none, lemma_find_from_props, subvec,
};
use crate::error::{is_decoding_error, ErrorKind, FerrumError, FerrumResult};
use crate::paths::{key_of, spec_key_of, DASH};

verus! {

/// `\n`, the line terminator.
pub const NL: u8 = 10;

/// `:`, the separator between a field's key and its value.
pub const COLON: u8 = 58;

/// ` `, the optional padding after the separator.
pub const SPACE: u8 = 32;

/// `---`, the front-matter delimiter line (without its terminator).
pub open spec fn spec_marker_line() -> Seq<u8> {
    seq![DASH, DASH, DASH]
}

/// `---\n`, the opening of a front-matter block.
pub open spec fn spec_open_marker() -> Seq<u8> {
    seq![DASH, DASH, DASH, NL]
}

/// `template`, the metadata field that selects a template by name.
pub open spec fn spec_template_key() -> Seq<u8> {
    seq![116u8, 101u8, 109u8, 112u8, 108u8, 97u8, 116u8, 101u8]
}

/// Holds when `s` starts with `p`.
pub open spec fn spec_starts_with(s: Seq<u8>, p: Seq<u8>) -> bool {
    s.len() >= p.len() && s.subrange(0, p.len() as int) == p
}

/// One parsed front-matter line: the key before the first `:`, the value
/// after it, with one optional space after the `:` dropped.
pub open spec fn spec_parse_line(line: Seq<u8>) -> Option<(Seq<u8>, Seq<u8>)> {
    match find_from(line, COLON, 0) {
        None => None,
        Some(c) => {
            let key = line.subrange(0, c);
            let after = line.subrange(c + 1, line.len() as int);
            if after.len() > 0 && after[0] == SPACE {
                Some((key, after.subrange(1, after.len() as int)))
            } else {
                Some((key, after))
            }
        },
    }
}

/// The metadata lines and the body of `s`, the input after the opening
/// `---\n`: field lines up to the closing `---` line, then the body.
/// `None` when the block is unterminated or a line has no `:`.
pub open spec fn spec_parse_meta(s: Seq<u8>) -> Option<(Seq<(Seq<u8>, Seq<u8>)>, Seq<u8>)>
    decreases s.len(),
    via spec_parse_meta_decreases
{
    match find_from(s, NL, 0) {
        None => None,
        Some(j) => {
            let line = s.subrange(0, j);
            let rest = s.subrange(j + 1, s.len() as int);
            if line == spec_marker_line() {
                Some((Seq::empty(), rest))
            } else {
                match spec_parse_line(line) {
                    None => None,
                    Some(kv) => match spec_parse_meta(rest) {
                        None => None,
                        Some(pr) => Some((seq![kv] + pr.0, pr.1)),
                    },
                }
            }
        },
    }
}

#[via_fn]
proof fn spec_parse_meta_decreases(s: Seq<u8>) {
    lemma_find_from_props(s, NL, 0);
}

/// The metadata and body of a whole document source `d`: a front-matter
/// block when `d` opens with one, else no metadata and `d` itself as body.
pub open spec fn spec_parse(d: Seq<u8>) -> Option<(Seq<(Seq<u8>, Seq<u8>)>, Seq<u8>)> {
    if spec_starts_with(d, spec_open_marker()) {
        spec_parse_meta(d.subrange(spec_open_marker().len() as int, d.len() as int))
    } else {
        Some((Seq::empty(), d))
    }
}

/// Holds when no two metadata entries share a key.
pub open spec fn spec_distinct_keys(m: Seq<(Seq<u8>, Seq<u8>)>) -> bool {
    forall|i: int, j: int| 0 <= i < j < m.len() ==> m[i].0 != m[j].0
}

/// The value of the first entry of `m` whose key is `k`, if any.
pub open spec fn spec_assoc(m: Seq<(Seq<u8>, Seq<u8>)>, k: Seq<u8>) -> Option<Seq<u8>>
    decreases m.len(),
{
    if m.len() == 0 {
        None
    } else if m[0].0 == k {
        Some(m[0].1)
    } else {
        spec_assoc(m.drop_first(), k)
    }
}

/// The mathematical image of a metadata vector: each entry as a pair of
/// byte sequences.
pub open spec fn meta_view(m: Seq<(Vec<u8>, Vec<u8>)>) -> Seq<(Seq<u8>, Seq<u8>)> {
    m.map_values(|p: (Vec<u8>, Vec<u8>)| (p.0@, p.1@))
}

/// The mathematical image of one document.
pub struct DocumentView {
    /// The output key.
    pub key: Seq<u8>,
    /// The front-matter fields, in file order.
    pub metadata: Seq<(Seq<u8>, Seq<u8>)>,
    /// The body.
    pub body: Seq<u8>,
    /// The template the document names, if any.
    pub template_name: Option<Seq<u8>>,
}

/// One parsed document: its output key, front-matter fields, body, and the
/// template it names through the `template` field, if any.
#[derive(Debug)]
pub struct Document {
    /// The output key derived from the source path; never empty.
    pub key: Vec<u8>,
    /// The front-matter fields, in file order; keys are unique.
    pub metadata: Vec<(Vec<u8>, Vec<u8>)>,
    /// The body: everything after the front-matter block.
    pub body: Vec<u8>,
    /// The value of the `template` field, if present.
    pub template_name: Option<Vec<u8>>,
}

impl View for Document {
    type V = DocumentView;

    open spec fn view(&self) -> DocumentView {
        DocumentView {
            key: self.key@,
            metadata: meta_view(self.metadata@),
            body: self.body@,
            template_name: match self.template_name {
                None => None,
                Some(t) => Some(t@),
            },
        }
    }
}

impl Document {
    /// Well-formedness: the key is non-empty, no two fields share a key, and
    /// `template_name` is exactly the `template` field of the metadata.
    pub open spec fn wf(self) -> bool {
        &&& self@.key.len() > 0
        &&& spec_distinct_keys(self@.metadata)
        &&& self@.template_name == spec_assoc(self@.metadata, spec_template_key())
    }
}

/// Holds when the file at path `p` with content `d` parses into a document:
/// the front-matter is well formed, its keys are unique, and the path yields
/// a non-empty output key.
pub open spec fn spec_doc_parses(d: Seq<u8>, p: Seq<u8>) -> bool {
    &&& spec_parse(d) is Some
    &&& spec_distinct_keys(spec_parse(d)->Some_0.0)
    &&& spec_key_of(p).len() > 0
}

/// The document that the file at path `p` with content `d` parses into.
pub open spec fn spec_doc_of(d: Seq<u8>, p: Seq<u8>) -> DocumentView
    recommends
        spec_doc_parses(d, p),
{
    DocumentView {
        key: spec_key_of(p),
        metadata: spec_parse(d)->Some_0.0,
        body: spec_parse(d)->Some_0.1,
        template_name: spec_assoc(spec_parse(d)->Some_0.0, spec_template_key()),
    }
}

/// A decoding error naming the file at `path`.
fn decoding_error(path: &[u8]) -> (e: FerrumError)
    ensures
        is_decoding_error(e, path@),
{
    let name = subvec(path, 0, path.len());
    proof {
        assert(name@ =~= path@);
    }
    FerrumError { kind: ErrorKind::DecodingError(name), desc: "Error decoding file", detail: None }
}

/// Whether `raw` opens a front-matter block, i.e. starts with `---\n`.
fn has_front_matter_marker(raw: &[u8]) -> (r: bool)
    ensures
        r == spec_starts_with(raw@, spec_open_marker()),
{
    if raw.len() >= 4 && raw[0] == DASH && raw[1] == DASH && raw[2] == DASH && raw[3] == NL {
        proof {
            assert(raw@.subrange(0, 4) =~= spec_open_marker());
        }
        true
    } else {
        proof {
            if raw@.len() >= 4 {
                assert(raw@.subrange(0, 4)[0] == raw@[0]);
                assert(raw@.subrange(0, 4)[1] == raw@[1]);
                assert(raw@.subrange(0, 4)[2] == raw@[2]);
                assert(raw@.subrange(0, 4)[3] == raw@[3]);
                assert(spec_open_marker()[0] == DASH);
                assert(spec_open_marker()[1] == DASH);
                assert(spec_open_marker()[2] == DASH);
                assert(spec_open_marker()[3] == NL);
                assert(raw@.subrange(0, 4) != spec_open_marker());
            }
        }
        false
    }
}

/// The `---` delimiter line, as bytes.
fn marker_line() -> (r: Vec<u8>)
    ensures
        r@ == spec_marker_line(),
{
    let mut v: Vec<u8> = Vec::new();
    v.push(DASH);
    v.push(DASH);
    v.push(DASH);
    proof {
        assert(v@ =~= spec_marker_line());
    }
    v
}

/// The `template` field key, as bytes.
pub fn template_key() -> (r: Vec<u8>)
    ensures
        r@ == spec_template_key(),
{
    let mut v: Vec<u8> = Vec::new();
    v.push(116);
    v.push(101);
    v.push(109);
    v.push(112);
    v.push(108);
    v.push(97);
    v.push(116);
    v.push(101);
    proof {
        assert(v@ =~= spec_template_key());
    }
    v
}

/// Whether no two entries share a key.
pub fn distinct_keys(entries: &Vec<(Vec<u8>, Vec<u8>)>) -> (r: bool)
    ensures
        r == spec_distinct_keys(meta_view(entries@)),
{
    let n = entries.len();
    let ghost mv = meta_view(entries@);
    proof {
        assert(mv.len() == n);
    }
    let mut i: usize = 0;
    while i < n
        invariant
            n == entries.len(),
            mv == meta_view(entries@),
            mv.len() == n,
            0 <= i <= n,
            forall|a: int, b: int| 0 <= a < b < n && a < i ==> mv[a].0 != mv[b].0,
        decreases n - i,
    {
        let mut j: usize = i + 1;
        while j < n
            invariant
                n == entries.len(),
                mv == meta_view(entries@),
                mv.len() == n,
                0 <= i < n,
                i < j <= n,
                forall|b: int| i < b < j ==> mv[i as int].0 != mv[b].0,
            decreases n - j,
        {
            if bytes_eq(entries[i].0.as_slice(), entries[j].0.as_slice()) {
                proof {
                    assert(mv[i as int].0 == entries@[i as int].0@);
                    assert(mv[j as int].0 == entries@[j as int].0@);
                    assert(!spec_distinct_keys(mv));
                }
                return false;
            }
            j += 1;
        }
        i += 1;
    }
    true
}

/// The value of the first entry whose key is `k`, as `spec_assoc` has it.
pub fn assoc_get(entries: &Vec<(Vec<u8>, Vec<u8>)>, k: &[u8]) -> (r: Option<Vec<u8>>)
    ensures
        match r {
            Some(v) => spec_assoc(meta_view(entries@), k@) == Some(v@),
            None => spec_assoc(meta_view(entries@), k@) is None,
        },
{
    let n = entries.len();
    let ghost mv = meta_view(entries@);
    proof {
        assert(mv.subrange(0, n as int) =~= mv);
    }
    let mut i: usize = 0;
    while i < n
        invariant
            n == entries.len(),
            mv == meta_view(entries@),
            mv.len() == n,
            0 <= i <= n,
            spec_assoc(mv, k@) == spec_assoc(mv.subrange(i as int, n as int), k@),
        decreases n - i,
    {
        let ghost sub = mv.subrange(i as int, n as int);
        proof {
            assert(sub[0] == mv[i as int]);
            assert(mv[i as int].0 == entries@[i as int].0@);
            assert(mv[i as int].1 == entries@[i as int].1@);
        }
        if bytes_eq(entries[i].0.as_slice(), k) {
            let v = subvec(entries[i].1.as_slice(), 0, entries[i].1.len());
            proof {
                assert(v@ =~= entries@[i as int].1@);
                assert(spec_assoc(sub, k@) == Some(sub[0].1));
            }
            return Some(v);
        }
        proof {
            assert(spec_assoc(sub, k@) == spec_assoc(sub.drop_first(), k@));
            assert(sub.drop_first() =~= mv.subrange(i + 1, n as int));
        }
        i += 1;
    }
    proof {
        assert(mv.subrange(n as int, n as int).len() == 0);
    }
    None
}

/// Joins already-parsed entries onto the outcome of parsing the rest.
pub open spec fn spec_prepend(
    e: Seq<(Seq<u8>, Seq<u8>)>,
    o: Option<(Seq<(Seq<u8>, Seq<u8>)>, Seq<u8>)>,
) -> Option<(Seq<(Seq<u8>, Seq<u8>)>, Seq<u8>)> {
    match o {
        None => None,
        Some(pr) => Some((e + pr.0, pr.1)),
    }
}

/// Parses the raw content of the file at `source_path` into a [`Document`].
///
/// Returns `Ok` exactly when the front-matter is well formed with unique
/// keys and the path yields a non-empty output key; the document is then
/// exactly what `spec_doc_of` describes. Returns a decoding error naming
/// `source_path` otherwise.
pub fn parse(raw: &[u8], source_path: &[u8]) -> (r: FerrumResult<Document>)
    ensures
        match r {
            Ok(doc) => {
                &&& spec_doc_parses(raw@, source_path@)
                &&& doc@ == spec_doc_of(raw@, source_path@)
                &&& doc.wf()
            },
            Err(e) => {
                &&& !spec_doc_parses(raw@, source_path@)
                &&& is_decoding_error(e, source_path@)
            },
        },
{
    let key = key_of(source_path);
    if key.len() == 0 {
        return Err(decoding_error(source_path));
    }
    if !has_front_matter_marker(raw) {
        let body = subvec(raw, 0, raw.len());
        let metadata: Vec<(Vec<u8>, Vec<u8>)> = Vec::new();
        proof {
            assert(body@ =~= raw@);
            assert(meta_view(metadata@) =~= Seq::<(Seq<u8>, Seq<u8>)>::empty());
        }
        return Ok(Document { key, metadata, body, template_name: None });
    }
    let n = raw.len();
    let tail = subvec(raw, 4, n);
    proof {
        assert(tail@ == raw@.subrange(4, n as int));
        assert(spec_open_marker().len() == 4);
        assert(spec_parse(raw@) == spec_parse_meta(tail@));
    }
    let tn = tail.len();
    let mut entries: Vec<(Vec<u8>, Vec<u8>)> = Vec::new();
    let mut pos: usize = 0;
    proof {
        assert(tail@.subrange(0, tn as int) =~= tail@);
        assert(meta_view(entries@) =~= Seq::<(Seq<u8>, Seq<u8>)>::empty());
        assert(spec_prepend(meta_view(entries@), spec_parse_meta(tail@)) == spec_parse_meta(
            tail@,
        ));
    }
    while pos < tn
        invariant
            tn == tail@.len(),
            raw@.len() >= 4,
            tail@ == raw@.subrange(4, raw@.len() as int),
            spec_parse(raw@) == spec_parse_meta(tail@),
            0 <= pos <= tn,
            spec_parse_meta(tail@) == spec_prepend(
                meta_view(entries@),
                spec_parse_meta(tail@.subrange(pos as int, tn as int)),
            ),
            spec_key_of(source_path@).len() > 0,
            key@ == spec_key_of(source_path@),
        decreases tn - pos,
    {
        let ghost sub = tail@.subrange(pos as int, tn as int);
        match crate::bytes::find_byte_from(tail.as_slice(), NL, pos) {
            None => {
                proof {
                    lemma_find_from_props(tail@, NL, pos as int);
                    assert forall|k: int| 0 <= k < sub.len() implies sub[k] != NL by {
                        assert(sub[k] == tail@[pos + k]);
                    }
                    lemma_find_from_none(sub, NL, 0);
                    assert(spec_parse_meta(sub) is None);
                }
                return Err(decoding_error(source_path));
            },
            Some(j) => {
                proof {
                    lemma_find_from_props(tail@, NL, pos as int);
                    assert(pos <= j < tn);
                    assert(sub[j - pos] == tail@[j as int]);
                    assert forall|k: int| 0 <= k < j - pos implies sub[k] != NL by {
                        assert(sub[k] == tail@[pos + k]);
                    }
                    lemma_find_from_is(sub, NL, 0, j - pos);
                }
                let line = subvec(tail.as_slice(), pos, j);
                proof {
                    assert(line@ =~= sub.subrange(0, j - pos));
                }
                let ghost rest_s = sub.subrange(j - pos + 1, sub.len() as int);
                proof {
                    assert(rest_s =~= tail@.subrange(j + 1, tn as int));
                }
                let marker = marker_line();
                if bytes_eq(line.as_slice(), marker.as_slice()) {
                    let body = subvec(tail.as_slice(), j + 1, tn);
                    proof {
                        assert(spec_parse_meta(sub) == Some(
                            (Seq::<(Seq<u8>, Seq<u8>)>::empty(), rest_s),
                        ));
                        assert(meta_view(entries@) + Seq::<(Seq<u8>, Seq<u8>)>::empty()
                            =~= meta_view(entries@));
                        assert(spec_parse_meta(tail@) == Some((meta_view(entries@), rest_s)));
                        assert(body@ =~= rest_s);
                    }
                    if !distinct_keys(&entries) {
                        return Err(decoding_error(source_path));
                    }
                    let tk = template_key();
                    let template_name = assoc_get(&entries, tk.as_slice());
                    let doc = Document { key, metadata: entries, body, template_name };
                    proof {
                        assert(spec_parse(raw@)->Some_0.0 == meta_view(doc.metadata@));
                        assert(spec_parse(raw@)->Some_0.1 == doc.body@);
                        assert(doc@ == spec_doc_of(raw@, source_path@));
                    }
                    return Ok(doc);
                }
                match crate::bytes::find_byte_from(line.as_slice(), COLON, 0) {
                    None => {
                        proof {
                            assert(spec_parse_line(line@) is None);
                            assert(spec_parse_meta(sub) is None);
                        }
                        return Err(decoding_error(source_path));
                    },
                    Some(c) => {
                        proof {
                            lemma_find_from_props(line@, COLON, 0);
                        }
                        let ln = line.len();
                        let k = subvec(line.as_slice(), 0, c);
                        let ghost after = line@.subrange(c + 1, ln as int);
                        let v: Vec<u8> = if c + 1 < ln && line[c + 1] == SPACE {
                            let vv = subvec(line.as_slice(), c + 2, ln);
                            proof {
                                assert(after.len() > 0 && after[0] == SPACE);
                                assert(vv@ =~= after.subrange(1, after.len() as int));
                            }
                            vv
                        } else {
                            let vv = subvec(line.as_slice(), c + 1, ln);
                            proof {
                                assert(!(after.len() > 0 && after[0] == SPACE));
                                assert(vv@ =~= after);
                            }
                            vv
                        };
                        proof {
                            assert(k@ =~= line@.subrange(0, c as int));
                            assert(spec_parse_line(line@) == Some((k@, v@)));
                        }
                        let ghost e_old = meta_view(entries@);
                        let ghost kv = (k@, v@);
                        entries.push((k, v));
                        proof {
                            assert(meta_view(entries@) =~= e_old + seq![kv]);
                            assert(spec_parse_meta(sub) == spec_prepend(
                                seq![kv],
                                spec_parse_meta(rest_s),
                            ));
                            match spec_parse_meta(rest_s) {
                                None => {
                                    assert(spec_parse_meta(tail@) is None);
                                },
                                Some(pr) => {
                                    assert(e_old + (seq![kv] + pr.0) =~= (e_old + seq![kv])
                                        + pr.0);
                                },
                            }
                            assert(spec_parse_meta(tail@) == spec_prepend(
                                meta_view(entries@),
                                spec_parse_meta(rest_s),
                            ));
                        }
                        pos = j + 1;
                    },
                }
            },
        }
    }
    proof {
        let sub = tail@.subrange(tn as int, tn as int);
        assert(sub.len() == 0);
        assert(find_from(sub, NL, 0) is None);
        assert(spec_parse_meta(sub) is None);
    }
    Err(decoding_error(source_path))
}

/// One serialized front-matter field: `key: value` and a line terminator.
pub open spec fn spec_serialize_entry(e: (Seq<u8>, Seq<u8>)) -> Seq<u8> {
    e.0 + seq![COLON, SPACE] + e.1 + seq![NL]
}

/// The serialized field lines of `m`, in order.
pub open spec fn spec_serialize_meta(m: Seq<(Seq<u8>, Seq<u8>)>) -> Seq<u8>
    decreases m.len(),
{
    if m.len() == 0 {
        Seq::empty()
    } else {
        spec_serialize_entry(m[0]) + spec_serialize_meta(m.drop_first())
    }
}

/// A whole serialized front-matter block: the opening `---` line, the field
/// lines, and the closing `---` line.
pub open spec fn spec_serialize(m: Seq<(Seq<u8>, Seq<u8>)>) -> Seq<u8> {
    spec_open_marker() + spec_serialize_meta(m) + spec_marker_line() + seq![NL]
}

/// A field that serialization keeps round-trip stable: no `:` or newline in
/// the key, no newline in the value.
pub open spec fn spec_wf_entry(e: (Seq<u8>, Seq<u8>)) -> bool {
    &&& !e.0.contains(COLON)
    &&& !e.0.contains(NL)
    &&& !e.1.contains(NL)
}

/// Holds when every field of `m` is round-trip stable.
pub open spec fn spec_wf_meta(m: Seq<(Seq<u8>, Seq<u8>)>) -> bool {
    forall|i: int| 0 <= i < m.len() ==> spec_wf_entry(m[i])
}

/// A serialized field line parses back to exactly that field.
proof fn lemma_parse_line_round(e: (Seq<u8>, Seq<u8>))
    requires
        spec_wf_entry(e),
    ensures
        spec_parse_line(e.0 + seq![COLON, SPACE] + e.1) == Some(e),
{
    let k = e.0;
    let v = e.1;
    let line = k + seq![COLON, SPACE] + v;
    assert(line[k.len() as int] == COLON);
    assert forall|i: int| 0 <= i < k.len() implies line[i] != COLON by {
        assert(line[i] == k[i]);
        if k[i] == COLON {
            assert(k.contains(COLON));
        }
    }
    lemma_find_from_is(line, COLON, 0, k.len() as int);
    assert(line.subrange(0, k.len() as int) =~= k);
    let after = line.subrange(k.len() as int + 1, line.len() as int);
    assert(after =~= seq![SPACE] + v);
    assert(after.len() > 0 && after[0] == SPACE);
    assert(after.subrange(1, after.len() as int) =~= v);
}

/// A serialized block followed by the closing line and a body parses back
/// to exactly those fields and that body.
proof fn lemma_parse_meta_round(m: Seq<(Seq<u8>, Seq<u8>)>, b: Seq<u8>)
    requires
        spec_wf_meta(m),
    ensures
        spec_parse_meta(spec_serialize_meta(m) + spec_marker_line() + seq![NL] + b) == Some(
            (m, b),
        ),
    decreases m.len(),
{
    let s = spec_serialize_meta(m) + spec_marker_line() + seq![NL] + b;
    if m.len() == 0 {
        assert(s =~= spec_marker_line() + seq![NL] + b);
        assert(s[3] == NL);
        assert forall|i: int| 0 <= i < 3 implies s[i] != NL by {
            assert(s[i] == spec_marker_line()[i]);
        }
        lemma_find_from_is(s, NL, 0, 3);
        assert(s.subrange(0, 3) =~= spec_marker_line());
        assert(s.subrange(4, s.len() as int) =~= b);
        assert(m =~= Seq::<(Seq<u8>, Seq<u8>)>::empty());
    } else {
        let e = m[0];
        let k = e.0;
        let v = e.1;
        let m1 = m.drop_first();
        let rest = spec_serialize_meta(m1) + spec_marker_line() + seq![NL] + b;
        let ll = k.len() + 2 + v.len();
        assert(spec_wf_entry(e));
        assert(s =~= (k + seq![COLON, SPACE] + v) + seq![NL] + rest);
        assert(s[ll as int] == NL);
        assert forall|i: int| 0 <= i < ll implies s[i] != NL by {
            if i < k.len() {
                assert(s[i] == k[i]);
                if k[i] == NL {
                    assert(k.contains(NL));
                }
            } else if i == k.len() {
                assert(s[i] == COLON);
            } else if i == k.len() + 1 {
                assert(s[i] == SPACE);
            } else {
                assert(s[i] == v[i - k.len() - 2]);
                if v[i - k.len() - 2] == NL {
                    assert(v.contains(NL));
                }
            }
        }
        lemma_find_from_is(s, NL, 0, ll as int);
        let line = s.subrange(0, ll as int);
        assert(line =~= k + seq![COLON, SPACE] + v);
        assert(line[k.len() as int] == COLON);
        if line == spec_marker_line() {
            assert(line.len() == 3);
            assert(k.len() <= 1);
            assert(line[k.len() as int] == DASH);
            assert(false);
        }
        lemma_parse_line_round(e);
        assert(spec_parse_line(line) == Some(e));
        assert(s.subrange(ll as int + 1, s.len() as int) =~= rest);
        assert forall|i: int| 0 <= i < m1.len() implies spec_wf_entry(m1[i]) by {
            assert(m1[i] == m[i + 1]);
        }
        lemma_parse_meta_round(m1, b);
        assert(spec_parse_meta(s) == Some((seq![e] + m1, b)));
        assert(seq![e] + m1 =~= m);
    }
}

/// Round trip: a serialized front-matter block, followed by any body,
/// parses back to exactly that metadata and that body.
pub proof fn lemma_parse_serialize_round_trip(m: Seq<(Seq<u8>, Seq<u8>)>, b: Seq<u8>)
    requires
        spec_wf_meta(m),
    ensures
        spec_parse(spec_serialize(m) + b) == Some((m, b)),
{
    let d = spec_serialize(m) + b;
    assert(d.len() >= 4);
    assert(d.subrange(0, 4) =~= spec_open_marker());
    assert(spec_starts_with(d, spec_open_marker()));
    assert(d.subrange(4, d.len() as int) =~= spec_serialize_meta(m) + spec_marker_line() + seq![
        NL,
    ] + b);
    lemma_parse_meta_round(m, b);
}

/// A document with no front-matter parses to empty metadata and to a body
/// that is the whole file content.
pub proof fn lemma_parse_no_front_matter(d: Seq<u8>)
    requires
        !spec_starts_with(d, spec_open_marker()),
    ensures
        spec_parse(d) == Some((Seq::<(Seq<u8>, Seq<u8>)>::empty(), d)),
{
}

/// Appending one field serializes to appending its line.
proof fn lemma_serialize_meta_push(m: Seq<(Seq<u8>, Seq<u8>)>, e: (Seq<u8>, Seq<u8>))
    ensures
        spec_serialize_meta(m.push(e)) == spec_serialize_meta(m) + spec_serialize_entry(e),
    decreases m.len(),
{
    if m.len() == 0 {
        assert(m.push(e)[0] == e);
        assert(m.push(e).drop_first() =~= Seq::<(Seq<u8>, Seq<u8>)>::empty());
        assert(spec_serialize_meta(Seq::<(Seq<u8>, Seq<u8>)>::empty()) == Seq::<u8>::empty());
        assert(spec_serialize_meta(m.push(e)) == spec_serialize_entry(e) + Seq::<u8>::empty());
        assert(spec_serialize_entry(e) + Seq::<u8>::empty() =~= spec_serialize_entry(e));
        assert(spec_serialize_meta(m) + spec_serialize_entry(e) =~= spec_serialize_entry(e));
    } else {
        assert(m.push(e)[0] == m[0]);
        assert(m.push(e).drop_first() =~= m.drop_first().push(e));
        lemma_serialize_meta_push(m.drop_first(), e);
        assert(spec_serialize_entry(m[0]) + (spec_serialize_meta(m.drop_first())
            + spec_serialize_entry(e)) =~= (spec_serialize_entry(m[0]) + spec_serialize_meta(
            m.drop_first(),
        )) + spec_serialize_entry(e));
    }
}

/// Serializes metadata into a front-matter block, as `spec_serialize` has it.
pub fn serialize_metadata(entries: &Vec<(Vec<u8>, Vec<u8>)>) -> (r: Vec<u8>)
    ensures
        r@ == spec_serialize(meta_view(entries@)),
{
    let ghost mv = meta_view(entries@);
    let mut out: Vec<u8> = Vec::new();
    out.push(DASH);
    out.push(DASH);
    out.push(DASH);
    out.push(NL);
    proof {
        assert(out@ =~= spec_open_marker());
        assert(mv.subrange(0, 0) =~= Seq::<(Seq<u8>, Seq<u8>)>::empty());
        assert(out@ =~= spec_open_marker() + spec_serialize_meta(mv.subrange(0, 0)));
    }
    let n = entries.len();
    let mut i: usize = 0;
    while i < n
        invariant
            n == entries.len(),
            mv == meta_view(entries@),
            mv.len() == n,
            0 <= i <= n,
            out@ == spec_open_marker() + spec_serialize_meta(mv.subrange(0, i as int)),
        decreases n - i,
    {
        let ghost out0 = out@;
        crate::bytes::push_all(&mut out, entries[i].0.as_slice());
        out.push(COLON);
        out.push(SPACE);
        crate::bytes::push_all(&mut out, entries[i].1.as_slice());
        out.push(NL);
        proof {
            assert(mv[i as int] == (entries@[i as int].0@, entries@[i as int].1@));
            assert(out@ =~= out0 + spec_serialize_entry(mv[i as int]));
            assert(mv.subrange(0, i + 1) =~= mv.subrange(0, i as int).push(mv[i as int]));
            lemma_serialize_meta_push(mv.subrange(0, i as int), mv[i as int]);
            assert(out@ =~= spec_open_marker() + spec_serialize_meta(mv.subrange(0, i + 1)));
        }
        i += 1;
    }
    out.push(DASH);
    out.push(DASH);
    out.push(DASH);
    out.push(NL);
    proof {
        assert(mv.subrange(0, n as int) =~= mv);
        assert(out@ =~= spec_serialize(mv));
    }
    out
}

/// Holds when every file of the batch parses into a document.
pub open spec fn spec_all_parse(files: Seq<(Seq<u8>, Seq<u8>)>) -> bool {
    forall|i: int| 0 <= i < files.len() ==> spec_doc_parses(files[i].1, files[i].0)
}

/// Holds when no two files of the batch derive the same output key.
pub open spec fn spec_batch_keys_distinct(files: Seq<(Seq<u8>, Seq<u8>)>) -> bool {
    forall|i: int, j: int|
        0 <= i < j < files.len() ==> spec_key_of(files[i].0) != spec_key_of(files[j].0)
}

/// Holds when the batch load fails on file `i`: every earlier file parses,
/// file `i` does not, and `e` is the decoding error naming it.
pub open spec fn spec_load_fails_at(files: Seq<(Seq<u8>, Seq<u8>)>, i: int, e: FerrumError) -> bool {
    &&& 0 <= i < files.len()
    &&& !spec_doc_parses(files[i].1, files[i].0)
    &&& forall|j: int| 0 <= j < i ==> spec_doc_parses(files[j].1, files[j].0)
    &&& is_decoding_error(e, files[i].0)
}

/// Holds when files `i` and `j` of the batch derive the same output key `k`.
pub open spec fn spec_collision_at(files: Seq<(Seq<u8>, Seq<u8>)>, i: int, j: int, k: Seq<u8>) -> bool {
    &&& 0 <= i < j < files.len()
    &&& spec_key_of(files[i].0) == spec_key_of(files[j].0)
    &&& k == spec_key_of(files[i].0)
}

/// Parses a whole batch of `(source path, content)` files into documents.
///
/// Fail-fast: returns the decoding error of the first file that does not
/// parse, and no documents. When all parse but two derive the same output
/// key, returns a duplicate-key error carrying that key. Returns `Ok`
/// exactly when every file parses and all keys are distinct; the documents
/// then stand in file order.
#[verifier::rlimit(60)]
pub fn load_documents(files: &Vec<(Vec<u8>, Vec<u8>)>) -> (r: FerrumResult<Vec<Document>>)
    ensures
        match r {
            Ok(docs) => {
                &&& spec_all_parse(meta_view(files@))
                &&& spec_batch_keys_distinct(meta_view(files@))
                &&& docs.len() == files.len()
                &&& forall|i: int|
                    0 <= i < files.len() ==> #[trigger] docs[i]@ == spec_doc_of(
                        meta_view(files@)[i].1,
                        meta_view(files@)[i].0,
                    ) && docs[i].wf()
            },
            Err(e) => {
                ||| exists|i: int| spec_load_fails_at(meta_view(files@), i, e)
                ||| {
                    &&& spec_all_parse(meta_view(files@))
                    &&& !spec_batch_keys_distinct(meta_view(files@))
                    &&& e.kind is DuplicateKeyError
                    &&& exists|i: int, j: int|
                        spec_collision_at(meta_view(files@), i, j, e.kind->DuplicateKeyError_0@)
                }
            },
        },
{
    let ghost fv = meta_view(files@);
    let n = files.len();
    let mut docs: Vec<Document> = Vec::new();
    let mut i: usize = 0;
    while i < n
        invariant
            n == files.len(),
            fv == meta_view(files@),
            fv.len() == n,
            0 <= i <= n,
            docs.len() == i,
            forall|j: int| 0 <= j < i ==> spec_doc_parses(fv[j].1, fv[j].0),
            forall|j: int|
                0 <= j < i ==> #[trigger] docs[j]@ == spec_doc_of(fv[j].1, fv[j].0)
                    && docs[j].wf(),
        decreases n - i,
    {
        proof {
            assert(fv[i as int] == (files@[i as int].0@, files@[i as int].1@));
        }
        match parse(files[i].1.as_slice(), files[i].0.as_slice()) {
            Ok(doc) => {
                docs.push(doc);
            },
            Err(e) => {
                proof {
                    assert(spec_load_fails_at(fv, i as int, e));
                }
                return Err(e);
            },
        }
        i += 1;
    }
    let mut a: usize = 0;
    while a < n
        invariant
            n == files.len(),
            fv == meta_view(files@),
            fv.len() == n,
            docs.len() == n,
            0 <= a <= n,
            forall|j: int| 0 <= j < n ==> spec_doc_parses(fv[j].1, fv[j].0),
            forall|j: int|
                0 <= j < n ==> #[trigger] docs[j]@ == spec_doc_of(fv[j].1, fv[j].0)
                    && docs[j].wf(),
            forall|x: int, y: int|
                0 <= x < y < n && x < a ==> spec_key_of(fv[x].0) != spec_key_of(fv[y].0),
        decreases n - a,
    {
        let mut b: usize = a + 1;
        while b < n
            invariant
                n == files.len(),
                fv == meta_view(files@),
                fv.len() == n,
                docs.len() == n,
                0 <= a < n,
                a < b <= n,
                forall|j: int| 0 <= j < n ==> spec_doc_parses(fv[j].1, fv[j].0),
                forall|j: int|
                    0 <= j < n ==> #[trigger] docs[j]@ == spec_doc_of(fv[j].1, fv[j].0)
                        && docs[j].wf(),
                forall|y: int| a < y < b ==> spec_key_of(fv[a as int].0) != spec_key_of(fv[y].0),
            decreases n - b,
        {
            if bytes_eq(docs[a].key.as_slice(), docs[b].key.as_slice()) {
                let dup = subvec(docs[a].key.as_slice(), 0, docs[a].key.len());
                proof {
                    assert(dup@ =~= docs@[a as int]@.key);
                    assert(docs@[a as int]@.key == spec_key_of(fv[a as int].0));
                    assert(docs@[b as int]@.key == spec_key_of(fv[b as int].0));
                    assert(spec_key_of(fv[a as int].0) == spec_key_of(fv[b as int].0));
                    assert(!spec_batch_keys_distinct(fv));
                }
                let err = FerrumError {
                    kind: ErrorKind::DuplicateKeyError(dup),
                    desc: "Duplicate output key",
                    detail: None,
                };
                proof {
                    assert(spec_collision_at(
                        fv,
                        a as int,
                        b as int,
                        err.kind->DuplicateKeyError_0@,
                    ));
                }
                return Err(err);
            }
            b += 1;
        }
        a += 1;
    }
    Ok(docs)
}

} // verus!
