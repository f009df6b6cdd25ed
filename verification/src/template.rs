//! The template store: named templates indexed by a key derived from the
//! template file's name (its stem, extension stripped). Names are unique per
//! store; building a store from two files with the same derived name is a
//! duplicate-key error, never a silent overwrite.

use vstd::prelude::*;
use crate::bytes::{bytes_eq, subvec};
use crate::error::{ErrorKind, FerrumError, FerrumResult};
use crate::paths::{filename_of, spec_filename, spec_stem, stem_of};

verus! {

/// One loaded template: its derived name and its raw content.
#[derive(Debug)]
pub struct Template {
    /// The name documents resolve against; the template filename's stem.
    pub name: Vec<u8>,
    /// The template source, containing placeholders.
    pub content: Vec<u8>,
}

/// The mathematical image of one template.
pub struct TemplateView {
    /// The derived name.
    pub name: Seq<u8>,
    /// The template source.
    pub content: Seq<u8>,
}

impl View for Template {
    type V = TemplateView;

    open spec fn view(&self) -> TemplateView {
        TemplateView { name: self.name@, content: self.content@ }
    }
}

/// The name a template file's path derives: the filename's stem.
pub open spec fn spec_template_name_of(p: Seq<u8>) -> Seq<u8> {
    spec_stem(spec_filename(p))
}

/// The content of the first template of `ts` named `name`, if any.
pub open spec fn spec_lookup(ts: Seq<TemplateView>, name: Seq<u8>) -> Option<Seq<u8>>
    decreases ts.len(),
{
    if ts.len() == 0 {
        None
    } else if ts[0].name == name {
        Some(ts[0].content)
    } else {
        spec_lookup(ts.drop_first(), name)
    }
}

/// A read-only collection of templates with pairwise-distinct names.
#[derive(Debug)]
pub struct TemplateStore {
    /// The templates, in load order.
    pub templates: Vec<Template>,
}

impl View for TemplateStore {
    type V = Seq<TemplateView>;

    open spec fn view(&self) -> Seq<TemplateView> {
        self.templates@.map_values(|t: Template| t@)
    }
}

/// Holds when no two template files of the batch derive the same name.
pub open spec fn spec_template_names_distinct(files: Seq<(Seq<u8>, Seq<u8>)>) -> bool {
    forall|i: int, j: int|
        0 <= i < j < files.len() ==> spec_template_name_of(files[i].0) != spec_template_name_of(
            files[j].0,
        )
}

/// Holds when template files `i` and `j` of the batch derive the same name `k`.
pub open spec fn spec_template_collision_at(
    files: Seq<(Seq<u8>, Seq<u8>)>,
    i: int,
    j: int,
    k: Seq<u8>,
) -> bool {
    &&& 0 <= i < j < files.len()
    &&& spec_template_name_of(files[i].0) == spec_template_name_of(files[j].0)
    &&& k == spec_template_name_of(files[i].0)
}

impl TemplateStore {
    /// Well-formedness: no two templates share a name.
    pub open spec fn wf(self) -> bool {
        forall|i: int, j: int| 0 <= i < j < self@.len() ==> self@[i].name != self@[j].name
    }

    /// The content of the template named `name`, as `spec_lookup` has it.
    pub fn get(&self, name: &[u8]) -> (r: Option<Vec<u8>>)
        ensures
            match r {
                Some(c) => spec_lookup(self@, name@) == Some(c@),
                None => spec_lookup(self@, name@) is None,
            },
    {
        let n = self.templates.len();
        let ghost tv = self@;
        proof {
            assert(tv.subrange(0, n as int) =~= tv);
        }
        let mut i: usize = 0;
        while i < n
            invariant
                n == self.templates.len(),
                tv == self@,
                tv.len() == n,
                0 <= i <= n,
                spec_lookup(tv, name@) == spec_lookup(tv.subrange(i as int, n as int), name@),
            decreases n - i,
        {
            let ghost sub = tv.subrange(i as int, n as int);
            proof {
                assert(sub[0] == tv[i as int]);
                assert(tv[i as int] == self.templates@[i as int]@);
            }
            if bytes_eq(self.templates[i].name.as_slice(), name) {
                let c = subvec(
                    self.templates[i].content.as_slice(),
                    0,
                    self.templates[i].content.len(),
                );
                proof {
                    assert(c@ =~= self.templates@[i as int].content@);
                    assert(spec_lookup(sub, name@) == Some(sub[0].content));
                }
                return Some(c);
            }
            proof {
                assert(spec_lookup(sub, name@) == spec_lookup(sub.drop_first(), name@));
                assert(sub.drop_first() =~= tv.subrange(i + 1, n as int));
            }
            i += 1;
        }
        proof {
            assert(tv.subrange(n as int, n as int).len() == 0);
        }
        None
    }

    /// Builds a store from a batch of `(path, content)` template files.
    ///
    /// Each file becomes a template named by its filename's stem, in batch
    /// order. Returns `Ok` exactly when no two files derive the same name;
    /// otherwise a duplicate-key error carrying the colliding name.
    pub fn build(files: &Vec<(Vec<u8>, Vec<u8>)>) -> (r: FerrumResult<TemplateStore>)
        ensures
            match r {
                Ok(store) => {
                    &&& store.wf()
                    &&& spec_template_names_distinct(crate::document::meta_view(files@))
                    &&& store@.len() == files.len()
                    &&& forall|i: int|
                        0 <= i < files.len() ==> (#[trigger] store@[i]).name
                            == spec_template_name_of(files@[i].0@) && store@[i].content
                            == files@[i].1@
                },
                Err(e) => {
                    &&& !spec_template_names_distinct(crate::document::meta_view(files@))
                    &&& e.kind is DuplicateKeyError
                    &&& exists|i: int, j: int|
                        spec_template_collision_at(
                            crate::document::meta_view(files@),
                            i,
                            j,
                            e.kind->DuplicateKeyError_0@,
                        )
                },
            },
    {
        let ghost fv = crate::document::meta_view(files@);
        let n = files.len();
        let mut templates: Vec<Template> = Vec::new();
        let mut i: usize = 0;
        while i < n
            invariant
                n == files.len(),
                fv == crate::document::meta_view(files@),
                fv.len() == n,
                0 <= i <= n,
                templates.len() == i,
                forall|j: int|
                    0 <= j < i ==> (#[trigger] templates@[j])@.name == spec_template_name_of(
                        fv[j].0,
                    ) && templates@[j]@.content == fv[j].1,
            decreases n - i,
        {
            proof {
                assert(fv[i as int] == (files@[i as int].0@, files@[i as int].1@));
            }
            let f = filename_of(files[i].0.as_slice());
            let name = stem_of(f.as_slice());
            let content = subvec(files[i].1.as_slice(), 0, files[i].1.len());
            proof {
                assert(content@ =~= files@[i as int].1@);
            }
            templates.push(Template { name, content });
            i += 1;
        }
        let store = TemplateStore { templates };
        proof {
            assert forall|j: int| 0 <= j < n implies (#[trigger] store@[j]).name
                == spec_template_name_of(fv[j].0) && store@[j].content == fv[j].1 by {
                assert(store@[j] == store.templates@[j]@);
            }
        }
        let mut a: usize = 0;
        while a < n
            invariant
                n == files.len(),
                fv == crate::document::meta_view(files@),
                fv.len() == n,
                store@.len() == n,
                0 <= a <= n,
                forall|j: int|
                    0 <= j < n ==> (#[trigger] store@[j]).name == spec_template_name_of(fv[j].0)
                        && store@[j].content == fv[j].1,
                forall|x: int, y: int|
                    0 <= x < y < n && x < a ==> spec_template_name_of(fv[x].0)
                        != spec_template_name_of(fv[y].0),
            decreases n - a,
        {
            let mut b: usize = a + 1;
            while b < n
                invariant
                    n == files.len(),
                    fv == crate::document::meta_view(files@),
                    fv.len() == n,
                    store@.len() == n,
                    0 <= a < n,
                    a < b <= n,
                    forall|j: int|
                        0 <= j < n ==> (#[trigger] store@[j]).name == spec_template_name_of(
                            fv[j].0,
                        ) && store@[j].content == fv[j].1,
                    forall|y: int|
                        a < y < b ==> spec_template_name_of(fv[a as int].0)
                            != spec_template_name_of(fv[y].0),
                decreases n - b,
            {
                if bytes_eq(
                    store.templates[a].name.as_slice(),
                    store.templates[b].name.as_slice(),
                ) {
                    let dup = subvec(
                        store.templates[a].name.as_slice(),
                        0,
                        store.templates[a].name.len(),
                    );
                    proof {
                        assert(dup@ =~= store@[a as int].name);
                        assert(store@[a as int].name == spec_template_name_of(fv[a as int].0));
                        assert(store@[b as int].name == spec_template_name_of(fv[b as int].0));
                        assert(!spec_template_names_distinct(fv));
                    }
                    let err = FerrumError {
                        kind: ErrorKind::DuplicateKeyError(dup),
                        desc: "Duplicate template name",
                        detail: None,
                    };
                    proof {
                        assert(spec_template_collision_at(
                            fv,
                            a as int,
                            b as int,
                            err.kind->DuplicateKeyError_0@,
                        ));
                    }
                    return Err(err);
                }
                proof {
                    assert(store@[a as int].name == store.templates@[a as int]@.name);
                    assert(store@[b as int].name == store.templates@[b as int]@.name);
                }
                b += 1;
            }
            a += 1;
        }
        proof {
            assert forall|i2: int, j2: int| 0 <= i2 < j2 < store@.len() implies store@[i2].name
                != store@[j2].name by {
                assert(store@[i2].name == spec_template_name_of(fv[i2].0));
                assert(store@[j2].name == spec_template_name_of(fv[j2].0));
            }
        }
        Ok(store)
    }
}

} // verus!
