//! Path logic of the build: deriving a file's name, stem and extension,
//! computing a document's output key from its source path, and the
//! eligibility predicates that decide which files are loaded as templates,
//! loaded as documents, or copied verbatim to the output tree.
//!
//! Paths are UTF-8 byte strings whose components are separated by `/`.
//! A file is hidden when its name starts with `.`; hidden files are never
//! loaded and never copied. A document filename may carry a date prefix
//! (`YYYY-MM-DD-`), which is stripped from the output key.

use vstd::prelude::*;
use crate::bytes::{bytes_eq, find_last, lemma_find_last_props, rfind_byte, subvec};

verus! {

/// `/`, the path-component separator.
pub const SLASH: u8 = 47;

/// `.`, the extension separator and hidden-file marker.
pub const DOT: u8 = 46;

/// `-`, the separator inside a date prefix.
pub const DASH: u8 = 45;

/// The last component of `p`: everything after the last `/`, or all of `p`.
pub open spec fn spec_filename(p: Seq<u8>) -> Seq<u8> {
    match find_last(p, SLASH) {
        None => p,
        Some(i) => p.subrange(i + 1, p.len() as int),
    }
}

/// The stem of a filename `f`: everything before the last `.`, except that a
/// `.` in first position marks a hidden file, not an extension.
pub open spec fn spec_stem(f: Seq<u8>) -> Seq<u8> {
    match find_last(f, DOT) {
        None => f,
        Some(i) => if i > 0 {
            f.subrange(0, i)
        } else {
            f
        },
    }
}

/// The extension of a filename `f`: everything after the last `.`, if that
/// `.` is not in first position.
pub open spec fn spec_extension(f: Seq<u8>) -> Option<Seq<u8>> {
    match find_last(f, DOT) {
        None => None,
        Some(i) => if i > 0 {
            Some(f.subrange(i + 1, f.len() as int))
        } else {
            None
        },
    }
}

/// An ASCII decimal digit.
pub open spec fn spec_is_digit(b: u8) -> bool {
    48 <= b <= 57
}

/// Holds when `st` starts with a `YYYY-MM-DD-` date prefix.
pub open spec fn spec_has_date_prefix(st: Seq<u8>) -> bool {
    &&& st.len() >= 11
    &&& spec_is_digit(st[0])
    &&& spec_is_digit(st[1])
    &&& spec_is_digit(st[2])
    &&& spec_is_digit(st[3])
    &&& st[4] == DASH
    &&& spec_is_digit(st[5])
    &&& spec_is_digit(st[6])
    &&& st[7] == DASH
    &&& spec_is_digit(st[8])
    &&& spec_is_digit(st[9])
    &&& st[10] == DASH
}

/// The output key of a document at source path `p`: the filename's stem,
/// with a leading `YYYY-MM-DD-` date prefix stripped when present.
pub open spec fn spec_key_of(p: Seq<u8>) -> Seq<u8> {
    let st = spec_stem(spec_filename(p));
    if spec_has_date_prefix(st) {
        st.subrange(11, st.len() as int)
    } else {
        st
    }
}

/// Holds when the file at `p` is hidden: its name starts with `.`.
pub open spec fn spec_is_hidden(p: Seq<u8>) -> bool {
    let f = spec_filename(p);
    f.len() > 0 && f[0] == DOT
}

/// `tpl`, the template file extension.
pub open spec fn spec_template_ext() -> Seq<u8> {
    seq![116u8, 112u8, 108u8]
}

/// `_posts`, the documents subdirectory.
pub open spec fn spec_posts_dirname() -> Seq<u8> {
    seq![95u8, 112u8, 111u8, 115u8, 116u8, 115u8]
}

/// `_templates`, the templates subdirectory.
pub open spec fn spec_templates_dirname() -> Seq<u8> {
    seq![95u8, 116u8, 101u8, 109u8, 112u8, 108u8, 97u8, 116u8, 101u8, 115u8]
}

/// Holds when the file at `p` is loaded as a template: not hidden, and its
/// name carries the `tpl` extension.
pub open spec fn spec_is_template_file(p: Seq<u8>) -> bool {
    &&& !spec_is_hidden(p)
    &&& spec_extension(spec_filename(p)) == Some(spec_template_ext())
}

/// Holds when the file at `p` is loaded as a document: not hidden.
pub open spec fn spec_is_document_file(p: Seq<u8>) -> bool {
    !spec_is_hidden(p)
}

/// Holds when the entry at source-relative path `rel` is copied verbatim to
/// the output tree: not hidden, and not one of the two reserved
/// subdirectories.
pub open spec fn spec_copy_eligible(rel: Seq<u8>) -> bool {
    &&& !spec_is_hidden(rel)
    &&& rel != spec_posts_dirname()
    &&& rel != spec_templates_dirname()
}

/// A hidden file is never loaded as a template, never loaded as a document,
/// and never copied to the output tree.
pub proof fn lemma_hidden_never_processed(p: Seq<u8>)
    requires
        spec_is_hidden(p),
    ensures
        !spec_is_template_file(p),
        !spec_is_document_file(p),
        !spec_copy_eligible(p),
{
}

/// The last component of `p`, as `spec_filename` has it.
pub fn filename_of(p: &[u8]) -> (r: Vec<u8>)
    ensures
        r@ == spec_filename(p@),
{
    match rfind_byte(p, SLASH) {
        None => subvec(p, 0, p.len()),
        Some(i) => {
            let n = p.len();
            proof {
                lemma_find_last_props(p@, SLASH);
                assert(i < n);
            }
            subvec(p, i + 1, n)
        },
    }
}

/// The filename's stem, as `spec_stem` has it.
pub fn stem_of(f: &[u8]) -> (r: Vec<u8>)
    ensures
        r@ == spec_stem(f@),
{
    match rfind_byte(f, DOT) {
        None => subvec(f, 0, f.len()),
        Some(i) => {
            proof {
                lemma_find_last_props(f@, DOT);
            }
            if i > 0 {
                subvec(f, 0, i)
            } else {
                subvec(f, 0, f.len())
            }
        },
    }
}

/// Whether the file at `p` is hidden.
pub fn is_hidden(p: &[u8]) -> (r: bool)
    ensures
        r == spec_is_hidden(p@),
{
    let f = filename_of(p);
    f.len() > 0 && f[0] == DOT
}

/// Whether `st` starts with a `YYYY-MM-DD-` date prefix.
fn has_date_prefix(st: &[u8]) -> (r: bool)
    ensures
        r == spec_has_date_prefix(st@),
{
    st.len() >= 11 && st[0] >= 48 && st[0] <= 57 && st[1] >= 48 && st[1] <= 57 && st[2] >= 48
        && st[2] <= 57 && st[3] >= 48 && st[3] <= 57 && st[4] == DASH && st[5] >= 48 && st[5] <= 57
        && st[6] >= 48 && st[6] <= 57 && st[7] == DASH && st[8] >= 48 && st[8] <= 57 && st[9] >= 48
        && st[9] <= 57 && st[10] == DASH
}

/// The output key derived from source path `p`, as `spec_key_of` has it.
pub fn key_of(p: &[u8]) -> (r: Vec<u8>)
    ensures
        r@ == spec_key_of(p@),
{
    let f = filename_of(p);
    let st = stem_of(f.as_slice());
    if has_date_prefix(st.as_slice()) {
        subvec(st.as_slice(), 11, st.len())
    } else {
        st
    }
}

/// The `tpl` template extension, as bytes.
pub fn template_ext() -> (r: Vec<u8>)
    ensures
        r@ == spec_template_ext(),
{
    let mut v: Vec<u8> = Vec::new();
    v.push(116);
    v.push(112);
    v.push(108);
    proof {
        assert(v@ =~= spec_template_ext());
    }
    v
}

/// The `_posts` directory name, as bytes.
pub fn posts_dirname() -> (r: Vec<u8>)
    ensures
        r@ == spec_posts_dirname(),
{
    let mut v: Vec<u8> = Vec::new();
    v.push(95);
    v.push(112);
    v.push(111);
    v.push(115);
    v.push(116);
    v.push(115);
    proof {
        assert(v@ =~= spec_posts_dirname());
    }
    v
}

/// The `_templates` directory name, as bytes.
pub fn templates_dirname() -> (r: Vec<u8>)
    ensures
        r@ == spec_templates_dirname(),
{
    let mut v: Vec<u8> = Vec::new();
    v.push(95);
    v.push(116);
    v.push(101);
    v.push(109);
    v.push(112);
    v.push(108);
    v.push(97);
    v.push(116);
    v.push(101);
    v.push(115);
    proof {
        assert(v@ =~= spec_templates_dirname());
    }
    v
}

/// Whether the file at `p` is loaded as a template.
pub fn is_template_file(p: &[u8]) -> (r: bool)
    ensures
        r == spec_is_template_file(p@),
{
    if is_hidden(p) {
        return false;
    }
    let f = filename_of(p);
    match rfind_byte(f.as_slice(), DOT) {
        None => false,
        Some(i) => {
            proof {
                lemma_find_last_props(f@, DOT);
            }
            if i > 0 {
                let ext = subvec(f.as_slice(), i + 1, f.len());
                let want = template_ext();
                bytes_eq(ext.as_slice(), want.as_slice())
            } else {
                false
            }
        },
    }
}

/// Whether the file at `p` is loaded as a document.
pub fn is_document_file(p: &[u8]) -> (r: bool)
    ensures
        r == spec_is_document_file(p@),
{
    !is_hidden(p)
}

/// Whether the entry at source-relative path `rel` is copied to the output.
pub fn copy_eligible(rel: &[u8]) -> (r: bool)
    ensures
        r == spec_copy_eligible(rel@),
{
    if is_hidden(rel) {
        return false;
    }
    let posts = posts_dirname();
    let templates = templates_dirname();
    !bytes_eq(rel, posts.as_slice()) && !bytes_eq(rel, templates.as_slice())
}

/// `dest` joined with `key`: a `/` is put between them unless `dest`
/// already ends with one.
pub open spec fn spec_join(dest: Seq<u8>, key: Seq<u8>) -> Seq<u8> {
    if dest.len() > 0 && dest[dest.len() - 1] == SLASH {
        dest + key
    } else {
        dest + seq![SLASH] + key
    }
}

/// The output path for `key` under the destination root `dest`.
pub fn output_path(dest: &[u8], key: &[u8]) -> (r: Vec<u8>)
    ensures
        r@ == spec_join(dest@, key@),
{
    let mut out = subvec(dest, 0, dest.len());
    proof {
        assert(out@ =~= dest@);
    }
    if !(dest.len() > 0 && dest[dest.len() - 1] == SLASH) {
        out.push(SLASH);
        proof {
            assert(out@ =~= dest@ + seq![SLASH]);
        }
    }
    crate::bytes::push_all(&mut out, key);
    out
}

/// `./`, the default source root.
pub fn default_source_path() -> (r: Vec<u8>)
    ensures
        r@ == seq![DOT, SLASH],
{
    let mut v: Vec<u8> = Vec::new();
    v.push(DOT);
    v.push(SLASH);
    proof {
        assert(v@ =~= seq![DOT, SLASH]);
    }
    v
}

/// `./_site/`, the default destination root.
pub fn default_dest_path() -> (r: Vec<u8>)
    ensures
        r@ == seq![DOT, SLASH, 95u8, 115u8, 105u8, 116u8, 101u8, SLASH],
{
    let mut v: Vec<u8> = Vec::new();
    v.push(DOT);
    v.push(SLASH);
    v.push(95);
    v.push(115);
    v.push(105);
    v.push(116);
    v.push(101);
    v.push(SLASH);
    proof {
        assert(v@ =~= seq![DOT, SLASH, 95u8, 115u8, 105u8, 116u8, 101u8, SLASH]);
    }
    v
}

} // verus!
