//! Byte-string primitives shared by the parser, the template store and the
//! renderer: searching for a byte, comparing, slicing and concatenating
//! UTF-8 byte strings, each tied to a mathematical counterpart over `Seq<u8>`.

use vstd::prelude::*;

verus! {

/// The index of the first occurrence of `b` in `s` at or after `i`, if any.
pub open spec fn find_from(s: Seq<u8>, b: u8, i: int) -> Option<int>
    decreases s.len() - i,
{
    if i < 0 || i >= s.len() {
        None
    } else if s[i] == b {
        Some(i)
    } else {
        find_from(s, b, i + 1)
    }
}

/// The index of the last occurrence of `b` in `s`, if any.
pub open spec fn find_last(s: Seq<u8>, b: u8) -> Option<int>
    decreases s.len(),
{
    if s.len() == 0 {
        None
    } else if s[s.len() - 1] == b {
        Some(s.len() - 1)
    } else {
        find_last(s.drop_last(), b)
    }
}

/// `find_from` returns exactly the first occurrence at or after `i`.
pub proof fn lemma_find_from_is(s: Seq<u8>, b: u8, i: int, j: int)
    requires
        0 <= i <= j < s.len(),
        s[j] == b,
        forall|k: int| i <= k < j ==> s[k] != b,
    ensures
        find_from(s, b, i) == Some(j),
    decreases j - i,
{
    if i < j {
        lemma_find_from_is(s, b, i + 1, j);
    }
}

/// `find_from` returns `None` when `b` does not occur at or after `i`.
pub proof fn lemma_find_from_none(s: Seq<u8>, b: u8, i: int)
    requires
        forall|k: int| i <= k < s.len() ==> s[k] != b,
    ensures
        find_from(s, b, i) is None,
    decreases s.len() - i,
{
    if 0 <= i && i < s.len() {
        lemma_find_from_none(s, b, i + 1);
    }
}

/// Whatever `find_from` returns is an occurrence, and the first one.
pub proof fn lemma_find_from_props(s: Seq<u8>, b: u8, i: int)
    requires
        0 <= i,
    ensures
        match find_from(s, b, i) {
            Some(j) => i <= j < s.len() && s[j] == b && (forall|k: int| i <= k < j ==> s[k] != b),
            None => forall|k: int| i <= k < s.len() ==> s[k] != b,
        },
    decreases s.len() - i,
{
    if i < s.len() && s[i] != b {
        lemma_find_from_props(s, b, i + 1);
    }
}

/// `find_last` returns exactly the last occurrence.
pub proof fn lemma_find_last_is(s: Seq<u8>, b: u8, j: int)
    requires
        0 <= j < s.len(),
        s[j] == b,
        forall|k: int| j < k < s.len() ==> s[k] != b,
    ensures
        find_last(s, b) == Some(j),
    decreases s.len(),
{
    if j < s.len() - 1 {
        assert(forall|k: int| j < k < s.drop_last().len() ==> s.drop_last()[k] != b);
        lemma_find_last_is(s.drop_last(), b, j);
    }
}

/// `find_last` returns `None` when `b` does not occur in `s`.
pub proof fn lemma_find_last_none(s: Seq<u8>, b: u8)
    requires
        forall|k: int| 0 <= k < s.len() ==> s[k] != b,
    ensures
        find_last(s, b) is None,
    decreases s.len(),
{
    if s.len() > 0 {
        lemma_find_last_none(s.drop_last(), b);
    }
}

/// Whatever `find_last` returns is an occurrence, and the last one.
pub proof fn lemma_find_last_props(s: Seq<u8>, b: u8)
    ensures
        match find_last(s, b) {
            Some(j) => 0 <= j < s.len() && s[j] == b && (forall|k: int| j < k < s.len() ==> s[k] != b),
            None => forall|k: int| 0 <= k < s.len() ==> s[k] != b,
        },
    decreases s.len(),
{
    if s.len() > 0 && s[s.len() - 1] != b {
        lemma_find_last_props(s.drop_last(), b);
        assert forall|k: int| 0 <= k < s.len() - 1 implies s[k] == s.drop_last()[k] by {}
    }
}

/// Byte-for-byte equality of two byte strings.
pub fn bytes_eq(a: &[u8], b: &[u8]) -> (r: bool)
    ensures
        r == (a@ == b@),
{
    if a.len() != b.len() {
        assert(a@ != b@);
        return false;
    }
    let n = a.len();
    let mut i: usize = 0;
    while i < n
        invariant
            n == a.len() == b.len(),
            0 <= i <= n,
            forall|k: int| 0 <= k < i ==> a@[k] == b@[k],
        decreases n - i,
    {
        if a[i] != b[i] {
            return false;
        }
        i += 1;
    }
    proof {
        assert(a@ =~= b@);
    }
    true
}

/// The first occurrence of `b` in `s` at or after `start`, as `find_from` has it.
pub fn find_byte_from(s: &[u8], b: u8, start: usize) -> (r: Option<usize>)
    requires
        start <= s@.len(),
    ensures
        match r {
            Some(j) => find_from(s@, b, start as int) == Some(j as int),
            None => find_from(s@, b, start as int) is None,
        },
{
    let n = s.len();
    let mut i: usize = start;
    while i < n
        invariant
            n == s@.len(),
            start <= i <= n,
            forall|k: int| start <= k < i ==> s@[k] != b,
        decreases n - i,
    {
        if s[i] == b {
            proof {
                lemma_find_from_is(s@, b, start as int, i as int);
            }
            return Some(i);
        }
        i += 1;
    }
    proof {
        lemma_find_from_none(s@, b, start as int);
    }
    None
}

/// The last occurrence of `b` in `s`, as `find_last` has it.
pub fn rfind_byte(s: &[u8], b: u8) -> (r: Option<usize>)
    ensures
        match r {
            Some(j) => find_last(s@, b) == Some(j as int),
            None => find_last(s@, b) is None,
        },
{
    let n = s.len();
    let mut i: usize = n;
    while i > 0
        invariant
            n == s@.len(),
            0 <= i <= n,
            forall|k: int| i <= k < n ==> s@[k] != b,
        decreases i,
    {
        i -= 1;
        if s[i] == b {
            proof {
                lemma_find_last_is(s@, b, i as int);
            }
            return Some(i);
        }
    }
    proof {
        lemma_find_last_none(s@, b);
    }
    None
}

/// A copy of `s[i..j]` as a fresh byte string.
pub fn subvec(s: &[u8], i: usize, j: usize) -> (r: Vec<u8>)
    requires
        i <= j <= s@.len(),
    ensures
        r@ == s@.subrange(i as int, j as int),
{
    let mut out: Vec<u8> = Vec::new();
    let mut k: usize = i;
    while k < j
        invariant
            i <= k <= j <= s@.len(),
            out@ == s@.subrange(i as int, k as int),
        decreases j - k,
    {
        out.push(s[k]);
        proof {
            assert(out@ =~= s@.subrange(i as int, (k + 1) as int));
        }
        k += 1;
    }
    out
}

/// Appends all of `s` to `out`.
pub fn push_all(out: &mut Vec<u8>, s: &[u8])
    ensures
        final(out)@ == old(out)@ + s@,
{
    let n = s.len();
    let mut k: usize = 0;
    while k < n
        invariant
            n == s@.len(),
            0 <= k <= n,
            out@ == old(out)@ + s@.subrange(0, k as int),
        decreases n - k,
    {
        out.push(s[k]);
        proof {
            assert(out@ =~= old(out)@ + s@.subrange(0, (k + 1) as int));
        }
        k += 1;
    }
    proof {
        assert(s@.subrange(0, n as int) =~= s@);
    }
}

} // verus!
