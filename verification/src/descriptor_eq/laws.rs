//! What holds of canonicalisation and comparison as a whole.

use vstd::prelude::*;
use crate::descriptor_eq::model::{
    canonical_file, canonical_name, canonical_outcome, canonical_prefix, first_fault,
    has_file_named, insert_by_name, name_lt, renamed, sort_by_name, DescriptorFault, FileModel,
};
use crate::descriptor_eq::compare::sets_match;
use crate::descriptor_eq::outside::descriptor_bodies_match;
use crate::descriptor_eq::text::{
    lemma_chars_lt_asymmetric, lemma_chars_lt_irreflexive, lemma_chars_lt_total,
    lemma_chars_lt_transitive,
};

verus! {

proof fn lemma_name_lt_irreflexive(a: Option<Seq<char>>)
    ensures
        !name_lt(a, a),
{
    if let Some(x) = a {
        lemma_chars_lt_irreflexive(x);
    }
}

proof fn lemma_name_lt_asymmetric(a: Option<Seq<char>>, b: Option<Seq<char>>)
    requires
        name_lt(a, b),
    ensures
        !name_lt(b, a),
{
    if let (Some(x), Some(y)) = (a, b) {
        lemma_chars_lt_asymmetric(x, y);
    }
}

proof fn lemma_name_lt_transitive(a: Option<Seq<char>>, b: Option<Seq<char>>, c: Option<Seq<char>>)
    requires
        name_lt(a, b),
        name_lt(b, c),
    ensures
        name_lt(a, c),
{
    if let (Some(x), Some(y), Some(z)) = (a, b, c) {
        lemma_chars_lt_transitive(x, y, z);
    }
}

proof fn lemma_name_lt_total(a: Option<Seq<char>>, b: Option<Seq<char>>)
    requires
        a != b,
    ensures
        name_lt(a, b) || name_lt(b, a),
{
    if let (Some(x), Some(y)) = (a, b) {
        lemma_chars_lt_total(x, y);
    }
}

/// Files ordered strictly by name.
pub open spec fn strictly_sorted(s: Seq<FileModel>) -> bool {
    forall|i: int, j: int| 0 <= i < j < s.len() ==> name_lt(#[trigger] s[i].name, #[trigger] s[j].name)
}

/// The element sequence `r` holds `x` and the elements of `s`, and nothing
/// else.
pub open spec fn same_members(r: Seq<FileModel>, s: Seq<FileModel>) -> bool {
    &&& r.len() == s.len()
    &&& forall|k: int| 0 <= k < r.len() ==> s.contains(#[trigger] r[k])
    &&& forall|k: int| 0 <= k < s.len() ==> r.contains(#[trigger] s[k])
}

proof fn lemma_insert_members(s: Seq<FileModel>, x: FileModel)
    ensures
        insert_by_name(s, x).len() == s.len() + 1,
        insert_by_name(s, x).contains(x),
        forall|k: int| 0 <= k < s.len() ==> insert_by_name(s, x).contains(#[trigger] s[k]),
        forall|k: int|
            0 <= k < insert_by_name(s, x).len() ==> #[trigger] insert_by_name(s, x)[k] == x
                || s.contains(insert_by_name(s, x)[k]),
    decreases s.len(),
{
    let r = insert_by_name(s, x);
    if s.len() == 0 {
        assert(r[0] == x);
    } else if name_lt(x.name, s[0].name) {
        assert(r[0] == x);
        assert forall|k: int| 0 <= k < s.len() implies r.contains(#[trigger] s[k]) by {
            assert(r[k + 1] == s[k]);
        }
        assert forall|k: int| 0 <= k < r.len() implies #[trigger] r[k] == x || s.contains(r[k]) by {
            if k > 0 {
                assert(r[k] == s[k - 1]);
            }
        }
    } else {
        let t = s.drop_first();
        let q = insert_by_name(t, x);
        lemma_insert_members(t, x);
        assert(r == seq![s[0]] + q);
        let w = choose|w: int| 0 <= w < q.len() && q[w] == x;
        assert(r[w + 1] == x);
        assert forall|k: int| 0 <= k < s.len() implies r.contains(#[trigger] s[k]) by {
            if k == 0 {
                assert(r[0] == s[0]);
            } else {
                assert(s[k] == t[k - 1]);
                let w2 = choose|w2: int| 0 <= w2 < q.len() && q[w2] == t[k - 1];
                assert(r[w2 + 1] == s[k]);
            }
        }
        assert forall|k: int| 0 <= k < r.len() implies #[trigger] r[k] == x || s.contains(r[k]) by {
            if k == 0 {
                assert(s[0] == r[0]);
            } else {
                assert(r[k] == q[k - 1]);
                if q[k - 1] != x {
                    let w3 = choose|w3: int| 0 <= w3 < t.len() && t[w3] == q[k - 1];
                    assert(s[w3 + 1] == r[k]);
                }
            }
        }
    }
}

proof fn lemma_sort_members(s: Seq<FileModel>)
    ensures
        same_members(sort_by_name(s), s),
    decreases s.len(),
{
    if s.len() > 0 {
        let t = s.drop_last();
        let x = s.last();
        let q = sort_by_name(t);
        lemma_sort_members(t);
        lemma_insert_members(q, x);
        let r = sort_by_name(s);
        assert(r == insert_by_name(q, x));
        assert forall|k: int| 0 <= k < r.len() implies s.contains(#[trigger] r[k]) by {
            if r[k] == x {
                assert(s[s.len() - 1] == x);
            } else {
                let w = choose|w: int| 0 <= w < q.len() && q[w] == r[k];
                let w2 = choose|w2: int| 0 <= w2 < t.len() && t[w2] == q[w];
                assert(s[w2] == r[k]);
            }
        }
        assert forall|k: int| 0 <= k < s.len() implies r.contains(#[trigger] s[k]) by {
            if k < s.len() - 1 {
                assert(s[k] == t[k]);
                let w = choose|w: int| 0 <= w < q.len() && q[w] == t[k];
                assert(r.contains(q[w]));
            }
        }
    }
}

proof fn lemma_insert_strict(s: Seq<FileModel>, x: FileModel)
    requires
        strictly_sorted(s),
        forall|k: int| 0 <= k < s.len() ==> (#[trigger] s[k]).name != x.name,
    ensures
        strictly_sorted(insert_by_name(s, x)),
    decreases s.len(),
{
    let r = insert_by_name(s, x);
    if s.len() == 0 {
    } else if name_lt(x.name, s[0].name) {
        assert forall|i: int, j: int| 0 <= i < j < r.len() implies name_lt(
            #[trigger] r[i].name,
            #[trigger] r[j].name,
        ) by {
            if i == 0 {
                assert(r[j] == s[j - 1]);
                if j > 1 {
                    assert(name_lt(s[0].name, s[j - 1].name));
                    lemma_name_lt_transitive(x.name, s[0].name, s[j - 1].name);
                }
            } else {
                assert(r[i] == s[i - 1]);
                assert(r[j] == s[j - 1]);
            }
        }
    } else {
        let t = s.drop_first();
        let q = insert_by_name(t, x);
        assert forall|i: int, j: int| 0 <= i < j < t.len() implies name_lt(
            #[trigger] t[i].name,
            #[trigger] t[j].name,
        ) by {
            assert(t[i] == s[i + 1]);
            assert(t[j] == s[j + 1]);
        }
        assert forall|k: int| 0 <= k < t.len() implies (#[trigger] t[k]).name != x.name by {
            assert(t[k] == s[k + 1]);
        }
        lemma_insert_strict(t, x);
        lemma_insert_members(t, x);
        lemma_name_lt_total(x.name, s[0].name);
        assert(r == seq![s[0]] + q);
        assert forall|i: int, j: int| 0 <= i < j < r.len() implies name_lt(
            #[trigger] r[i].name,
            #[trigger] r[j].name,
        ) by {
            if i == 0 {
                assert(r[j] == q[j - 1]);
                if q[j - 1] != x {
                    let w = choose|w: int| 0 <= w < t.len() && t[w] == q[j - 1];
                    assert(s[w + 1] == q[j - 1]);
                }
            } else {
                assert(r[i] == q[i - 1]);
                assert(r[j] == q[j - 1]);
            }
        }
    }
}

proof fn lemma_sort_strict(s: Seq<FileModel>)
    requires
        forall|i: int, j: int| 0 <= i < j < s.len() ==> (#[trigger] s[i]).name != (#[trigger] s[j]).name,
    ensures
        strictly_sorted(sort_by_name(s)),
    decreases s.len(),
{
    if s.len() > 0 {
        let t = s.drop_last();
        let x = s.last();
        let q = sort_by_name(t);
        assert forall|i: int, j: int| 0 <= i < j < t.len() implies (#[trigger] t[i]).name != (
        #[trigger] t[j]).name by {
            assert(t[i] == s[i]);
            assert(t[j] == s[j]);
        }
        lemma_sort_strict(t);
        lemma_sort_members(t);
        assert forall|k: int| 0 <= k < q.len() implies (#[trigger] q[k]).name != x.name by {
            let w = choose|w: int| 0 <= w < t.len() && t[w] == q[k];
            assert(s[w] == q[k]);
            assert(s[s.len() - 1] == x);
        }
        lemma_insert_strict(q, x);
    }
}

proof fn lemma_insert_at_end(s: Seq<FileModel>, x: FileModel)
    requires
        forall|k: int| 0 <= k < s.len() ==> !name_lt(x.name, #[trigger] s[k].name),
    ensures
        insert_by_name(s, x) == s.push(x),
    decreases s.len(),
{
    if s.len() > 0 {
        let t = s.drop_first();
        assert forall|k: int| 0 <= k < t.len() implies !name_lt(x.name, #[trigger] t[k].name) by {
            assert(t[k] == s[k + 1]);
        }
        lemma_insert_at_end(t, x);
        assert(s.push(x) =~= seq![s[0]] + t.push(x));
    }
}

proof fn lemma_sort_sorted(s: Seq<FileModel>)
    requires
        strictly_sorted(s),
    ensures
        sort_by_name(s) == s,
    decreases s.len(),
{
    if s.len() > 0 {
        let t = s.drop_last();
        let x = s.last();
        assert forall|i: int, j: int| 0 <= i < j < t.len() implies name_lt(
            #[trigger] t[i].name,
            #[trigger] t[j].name,
        ) by {
            assert(t[i] == s[i]);
            assert(t[j] == s[j]);
        }
        lemma_sort_sorted(t);
        assert forall|k: int| 0 <= k < t.len() implies !name_lt(x.name, #[trigger] t[k].name) by {
            assert(t[k] == s[k]);
            assert(name_lt(s[k].name, s[s.len() - 1].name));
            lemma_name_lt_asymmetric(s[k].name, x.name);
        }
        lemma_insert_at_end(t, x);
        assert(t.push(x) =~= s);
    }
}

/// With no fault from index `i` on, every file from `i` on has a canonical
/// name that no earlier file has.
proof fn lemma_no_fault_names(files: Seq<FileModel>, source: Seq<char>, canonical: Seq<char>, i: int)
    requires
        0 <= i,
        first_fault(files, source, canonical, i) is None,
    ensures
        forall|k: int|
            i <= k < files.len() ==> (#[trigger] canonical_name(files, source, canonical, k)) is Some,
        forall|j: int, k: int|
            0 <= j < k && i <= k < files.len() ==> #[trigger] canonical_name(files, source, canonical, j)
                != #[trigger] canonical_name(files, source, canonical, k),
    decreases files.len() - i,
{
    if i < files.len() {
        lemma_no_fault_names(files, source, canonical, i + 1);
    }
}

/// Canonicalisation that succeeds gives the canonical form of every file,
/// each exactly once, in strictly ascending order of name.
pub proof fn lemma_canonical_files_sorted(files: Seq<FileModel>, source: Seq<char>, canonical: Seq<char>)
    requires
        canonical_outcome(files, source, canonical) is Ok,
    ensures
        ({
            let r = canonical_outcome(files, source, canonical)->Ok_0;
            &&& strictly_sorted(r)
            &&& same_members(r, canonical_prefix(files, source, canonical, files.len() as int))
            &&& forall|k: int| 0 <= k < r.len() ==> (#[trigger] r[k]).name is Some
        }),
{
    let all = canonical_prefix(files, source, canonical, files.len() as int);
    lemma_no_fault_names(files, source, canonical, 0);
    assert forall|i: int, j: int| 0 <= i < j < all.len() implies (#[trigger] all[i]).name != (
    #[trigger] all[j]).name by {
        assert(all[i].name == canonical_name(files, source, canonical, i));
        assert(all[j].name == canonical_name(files, source, canonical, j));
    }
    lemma_sort_strict(all);
    lemma_sort_members(all);
    let r = sort_by_name(all);
    assert forall|k: int| 0 <= k < r.len() implies (#[trigger] r[k]).name is Some by {
        let w = choose|w: int| 0 <= w < all.len() && all[w] == r[k];
        assert(all[w].name == canonical_name(files, source, canonical, w));
    }
}

/// Canonicalising a canonical set again, with its root file already under
/// the canonical name, changes nothing.
pub proof fn lemma_canonicalize_idempotent(files: Seq<FileModel>, source: Seq<char>, canonical: Seq<char>)
    requires
        canonical_outcome(files, source, canonical) is Ok,
    ensures
        canonical_outcome(canonical_outcome(files, source, canonical)->Ok_0, canonical, canonical)
            == canonical_outcome(files, source, canonical),
{
    let r = canonical_outcome(files, source, canonical)->Ok_0;
    let all = canonical_prefix(files, source, canonical, files.len() as int);
    lemma_canonical_files_sorted(files, source, canonical);
    // every file of `r` is already in canonical form
    assert forall|k: int| 0 <= k < r.len() implies canonical_file(#[trigger] r[k], canonical, canonical) == r[k] by {
        let w = choose|w: int| 0 <= w < all.len() && all[w] == r[k];
        let f = r[k];
        let c = canonical_file(f, canonical, canonical);
        assert(c.dependency =~= f.dependency) by {
            assert forall|d: int| 0 <= d < f.dependency.len() implies c.dependency[d] == f.dependency[d] by {
                let dep = files[w].dependency[d];
                assert(f.dependency[d] == renamed(dep, source, canonical));
            }
        }
    }
    let again = canonical_prefix(r, canonical, canonical, r.len() as int);
    assert(again =~= r);
    // no file lacks a name, and no name repeats
    assert forall|i: int| 0 <= i <= r.len() implies first_fault(r, canonical, canonical, i) is None by {
        lemma_first_fault_none_from(r, canonical, i);
    }
    // the root file is present under the canonical name
    let w = choose|w: int| 0 <= w < files.len() && files[w].name == Some(source);
    assert(all[w].name == Some(canonical));
    let v = choose|v: int| 0 <= v < r.len() && r[v] == all[w];
    assert(has_file_named(r, canonical));
    lemma_sort_sorted(r);
}

/// In a strictly sorted set that is already canonical, no file from `i` on
/// causes a fault.
proof fn lemma_first_fault_none_from(r: Seq<FileModel>, canonical: Seq<char>, i: int)
    requires
        0 <= i <= r.len(),
        strictly_sorted(r),
        forall|k: int| 0 <= k < r.len() ==> (#[trigger] r[k]).name is Some,
        forall|k: int| 0 <= k < r.len() ==> canonical_file(#[trigger] r[k], canonical, canonical) == r[k],
    ensures
        first_fault(r, canonical, canonical, i) is None,
    decreases r.len() - i,
{
    if i < r.len() {
        assert(canonical_name(r, canonical, canonical, i) == r[i].name);
        assert forall|j: int| 0 <= j < i implies canonical_name(r, canonical, canonical, j)
            != canonical_name(r, canonical, canonical, i) by {
            assert(canonical_name(r, canonical, canonical, j) == r[j].name);
            assert(name_lt(r[j].name, r[i].name));
            lemma_name_lt_irreflexive(r[i].name);
        }
        lemma_first_fault_none_from(r, canonical, i + 1);
    }
}

/// Two outcomes of canonicalisation that agree: the same canonical files,
/// or the same fault, where a missing root counts as the same fault
/// whatever root name each reports.
pub open spec fn outcomes_agree(
    a: Result<Seq<FileModel>, (Seq<FileModel>, DescriptorFault)>,
    b: Result<Seq<FileModel>, (Seq<FileModel>, DescriptorFault)>,
) -> bool {
    match (a, b) {
        (Ok(x), Ok(y)) => x == y,
        (Err((_, f)), Err((_, g))) => f == g || (f is RootNotFound && g is RootNotFound),
        _ => false,
    }
}

/// When two file lists give the same canonical names, position by
/// position, they give the same first fault.
proof fn lemma_first_fault_congruent(
    a: Seq<FileModel>,
    sa: Seq<char>,
    ca: Seq<char>,
    b: Seq<FileModel>,
    sb: Seq<char>,
    cb: Seq<char>,
    i: int,
)
    requires
        a.len() == b.len(),
        forall|k: int|
            0 <= k < a.len() ==> #[trigger] canonical_name(a, sa, ca, k) == canonical_name(b, sb, cb, k),
    ensures
        first_fault(a, sa, ca, i) == first_fault(b, sb, cb, i),
    decreases a.len() - i,
{
    if 0 <= i < a.len() {
        lemma_first_fault_congruent(a, sa, ca, b, sb, cb, i + 1);
        let n = canonical_name(a, sa, ca, i);
        if exists|j: int| 0 <= j < i && canonical_name(a, sa, ca, j) == n {
            let j = choose|j: int| 0 <= j < i && canonical_name(a, sa, ca, j) == n;
            assert(canonical_name(b, sb, cb, j) == n);
        }
        if exists|j: int| 0 <= j < i && canonical_name(b, sb, cb, j) == n {
            let j = choose|j: int| 0 <= j < i && canonical_name(b, sb, cb, j) == n;
            assert(canonical_name(a, sa, ca, j) == n);
        }
    }
}

/// Two files that differ at most in their source locations.
pub open spec fn same_but_source_info(f: FileModel, g: FileModel) -> bool {
    &&& f.name == g.name
    &&& f.package == g.package
    &&& f.dependency == g.dependency
    &&& f.message_count == g.message_count
    &&& f.enum_count == g.enum_count
    &&& f.service_count == g.service_count
    &&& f.body == g.body
}

/// Source locations are discarded: two sets whose files differ at most in
/// their source locations canonicalise alike.
pub proof fn lemma_source_info_ignored(
    a: Seq<FileModel>,
    b: Seq<FileModel>,
    source: Seq<char>,
    canonical: Seq<char>,
)
    requires
        a.len() == b.len(),
        forall|k: int| 0 <= k < a.len() ==> same_but_source_info(#[trigger] a[k], b[k]),
    ensures
        outcomes_agree(canonical_outcome(a, source, canonical), canonical_outcome(b, source, canonical)),
{
    assert forall|k: int| 0 <= k < a.len() implies canonical_file(#[trigger] a[k], source, canonical)
        == canonical_file(b[k], source, canonical) by {
        assert(same_but_source_info(a[k], b[k]));
    }
    assert forall|k: int| 0 <= k < a.len() implies #[trigger] canonical_name(a, source, canonical, k)
        == canonical_name(b, source, canonical, k) by {
        assert(canonical_file(a[k], source, canonical) == canonical_file(b[k], source, canonical));
    }
    lemma_first_fault_congruent(a, source, canonical, b, source, canonical, 0);
    let pa = canonical_prefix(a, source, canonical, a.len() as int);
    let pb = canonical_prefix(b, source, canonical, b.len() as int);
    assert(pa =~= pb);
    if has_file_named(a, source) {
        let w = choose|w: int| 0 <= w < a.len() && a[w].name == Some(source);
        assert(same_but_source_info(a[w], b[w]));
        assert(has_file_named(b, source));
    }
    if has_file_named(b, source) {
        let w = choose|w: int| 0 <= w < b.len() && b[w].name == Some(source);
        assert(same_but_source_info(a[w], b[w]));
        assert(has_file_named(a, source));
    }
}

/// A file with the root file `from` renamed to `to`, as its own name and as
/// an import.
pub open spec fn root_renamed(f: FileModel, from: Seq<char>, to: Seq<char>) -> FileModel {
    FileModel {
        name: match f.name {
            Some(n) => Some(renamed(n, from, to)),
            None => None,
        },
        dependency: f.dependency.map_values(|d: Seq<char>| renamed(d, from, to)),
        ..f
    }
}

/// Every file of the set with the root file `from` renamed to `to`.
pub open spec fn set_root_renamed(files: Seq<FileModel>, from: Seq<char>, to: Seq<char>) -> Seq<FileModel> {
    Seq::new(files.len(), |i: int| root_renamed(files[i], from, to))
}

/// The explicitly named root file is mapped: a set whose root file is
/// `from` canonicalises, with `from` mapped to `to`, as the same set with
/// the root file renamed to `to` does under its own name. This needs `to`
/// to be free in the set, since a second file already named `to` would
/// stand in for a missing root.
pub proof fn lemma_root_mapping(files: Seq<FileModel>, from: Seq<char>, to: Seq<char>)
    requires
        from == to || !has_file_named(files, to),
    ensures
        outcomes_agree(
            canonical_outcome(files, from, to),
            canonical_outcome(set_root_renamed(files, from, to), to, to),
        ),
{
    let moved = set_root_renamed(files, from, to);
    assert forall|k: int| 0 <= k < files.len() implies canonical_file(#[trigger] files[k], from, to)
        == canonical_file(moved[k], to, to) by {
        let c1 = canonical_file(files[k], from, to);
        let c2 = canonical_file(moved[k], to, to);
        assert(c1.dependency =~= c2.dependency);
    }
    assert forall|k: int| 0 <= k < files.len() implies #[trigger] canonical_name(files, from, to, k)
        == canonical_name(moved, to, to, k) by {
        assert(canonical_file(files[k], from, to) == canonical_file(moved[k], to, to));
    }
    lemma_first_fault_congruent(files, from, to, moved, to, to, 0);
    let pa = canonical_prefix(files, from, to, files.len() as int);
    let pb = canonical_prefix(moved, to, to, moved.len() as int);
    assert forall|k: int| 0 <= k < files.len() implies pa[k] == pb[k] by {
        assert(canonical_file(files[k], from, to) == canonical_file(moved[k], to, to));
    }
    assert(pa =~= pb);
    if has_file_named(files, from) {
        let w = choose|w: int| 0 <= w < files.len() && files[w].name == Some(from);
        assert(moved[w].name == Some(to));
        assert(has_file_named(moved, to));
    }
    if has_file_named(moved, to) {
        let w = choose|w: int| 0 <= w < moved.len() && moved[w].name == Some(to);
        assert(files[w].name == Some(from));
        assert(has_file_named(files, from));
    }
}

/// A set whose every file's remaining content equals itself matches itself.
pub proof fn lemma_sets_match_reflexive(s: Seq<FileModel>)
    requires
        forall|k: int| 0 <= k < s.len() ==> descriptor_bodies_match(#[trigger] s[k].body, s[k].body),
    ensures
        sets_match(s, s),
{
}


/// `p` carries each position of `a` to a position of `b` holding the same
/// file, one to one and onto.
pub open spec fn is_reordering(p: Seq<int>, a: Seq<FileModel>, b: Seq<FileModel>) -> bool {
    &&& a.len() == b.len()
    &&& p.len() == a.len()
    &&& forall|i: int| 0 <= i < a.len() ==> 0 <= #[trigger] p[i] < b.len() && a[i] == b[p[i]]
    &&& forall|i: int, j: int| 0 <= i < a.len() && 0 <= j < a.len() && i != j ==> #[trigger] p[i] != #[trigger] p[j]
    &&& forall|k: int| 0 <= k < b.len() ==> #[trigger] has_preimage(p, a.len() as int, k)
}

/// Some position below `n` is carried to `k`.
pub open spec fn has_preimage(p: Seq<int>, n: int, k: int) -> bool {
    exists|i: int| 0 <= i < n && #[trigger] p[i] == k
}

/// `a` holds the files of `b`, in some order.
pub open spec fn is_permutation_of(a: Seq<FileModel>, b: Seq<FileModel>) -> bool {
    exists|p: Seq<int>| is_reordering(p, a, b)
}

/// Being a reordering of one another goes both ways.
proof fn lemma_permutation_symmetric(a: Seq<FileModel>, b: Seq<FileModel>)
    requires
        is_permutation_of(a, b),
    ensures
        is_permutation_of(b, a),
{
    let p = choose|p: Seq<int>| is_reordering(p, a, b);
    let q = Seq::new(b.len(), |k: int| choose|i: int| 0 <= i < a.len() && p[i] == k);
    assert forall|k: int| 0 <= k < b.len() implies 0 <= #[trigger] q[k] < a.len() && b[k] == a[q[k]]
        && p[q[k]] == k by {
        assert(has_preimage(p, a.len() as int, k));
    }
    assert forall|k: int, l: int| 0 <= k < b.len() && 0 <= l < b.len() && k != l implies #[trigger] q[k]
        != #[trigger] q[l] by {
        assert(p[q[k]] == k && p[q[l]] == l);
    }
    assert forall|i: int| 0 <= i < a.len() implies #[trigger] has_preimage(q, b.len() as int, i) by {
        let k = p[i];
        assert(p[q[k]] == k);
        if q[k] != i {
            assert(p[q[k]] != p[i]);
        }
        assert(q[k] == i);
    }
    assert(is_reordering(q, b, a));
}

/// Every file has a canonical name, and no two files share one.
pub open spec fn names_well_formed(files: Seq<FileModel>, source: Seq<char>, canonical: Seq<char>) -> bool {
    &&& forall|k: int| 0 <= k < files.len() ==> (#[trigger] canonical_name(files, source, canonical, k)) is Some
    &&& forall|j: int, k: int|
        0 <= j < k < files.len() ==> #[trigger] canonical_name(files, source, canonical, j)
            != #[trigger] canonical_name(files, source, canonical, k)
}

/// With well-formed names there is no fault from any index on.
proof fn lemma_well_formed_no_fault(files: Seq<FileModel>, source: Seq<char>, canonical: Seq<char>, i: int)
    requires
        0 <= i,
        names_well_formed(files, source, canonical),
    ensures
        first_fault(files, source, canonical, i) is None,
    decreases files.len() - i,
{
    if i < files.len() {
        let n = canonical_name(files, source, canonical, i);
        assert(n is Some);
        assert(!exists|j: int| 0 <= j < i && canonical_name(files, source, canonical, j) == n);
        lemma_well_formed_no_fault(files, source, canonical, i + 1);
    }
}

/// Well-formed names stay well formed under reordering.
proof fn lemma_well_formed_reordered(
    a: Seq<FileModel>,
    b: Seq<FileModel>,
    source: Seq<char>,
    canonical: Seq<char>,
)
    requires
        is_permutation_of(a, b),
        names_well_formed(a, source, canonical),
    ensures
        names_well_formed(b, source, canonical),
{
    let p = choose|p: Seq<int>| is_reordering(p, a, b);
    assert forall|k: int| 0 <= k < b.len() implies (#[trigger] canonical_name(b, source, canonical, k)) is Some by {
        assert(has_preimage(p, a.len() as int, k));
        let i = choose|i: int| 0 <= i < a.len() && #[trigger] p[i] == k;
        assert(canonical_name(a, source, canonical, i) is Some);
    }
    assert forall|j: int, k: int| 0 <= j < k < b.len() implies #[trigger] canonical_name(b, source, canonical, j)
        != #[trigger] canonical_name(b, source, canonical, k) by {
        assert(has_preimage(p, a.len() as int, j));
        assert(has_preimage(p, a.len() as int, k));
        let ij = choose|i: int| 0 <= i < a.len() && #[trigger] p[i] == j;
        let ik = choose|i: int| 0 <= i < a.len() && #[trigger] p[i] == k;
        assert(canonical_name(a, source, canonical, ij) == canonical_name(b, source, canonical, j));
        assert(canonical_name(a, source, canonical, ik) == canonical_name(b, source, canonical, k));
        if ij < ik {
            assert(canonical_name(a, source, canonical, ij) != canonical_name(a, source, canonical, ik));
        } else {
            assert(canonical_name(a, source, canonical, ik) != canonical_name(a, source, canonical, ij));
        }
    }
}

/// A reordering of a set with the root file holds the root file.
proof fn lemma_root_reordered(a: Seq<FileModel>, b: Seq<FileModel>, source: Seq<char>)
    requires
        is_permutation_of(a, b),
        has_file_named(a, source),
    ensures
        has_file_named(b, source),
{
    let p = choose|p: Seq<int>| is_reordering(p, a, b);
    let w = choose|w: int| 0 <= w < a.len() && a[w].name == Some(source);
    assert(b[p[w]].name == Some(source));
}

/// Two strictly sorted lists with the same files are the same list.
proof fn lemma_sorted_unique(r1: Seq<FileModel>, r2: Seq<FileModel>)
    requires
        strictly_sorted(r1),
        strictly_sorted(r2),
        r1.len() == r2.len(),
        forall|k: int| 0 <= k < r1.len() ==> r2.contains(#[trigger] r1[k]),
        forall|k: int| 0 <= k < r2.len() ==> r1.contains(#[trigger] r2[k]),
    ensures
        r1 == r2,
    decreases r1.len(),
{
    if r1.len() == 0 {
        assert(r1 =~= r2);
    } else {
        let w = choose|w: int| 0 <= w < r2.len() && r2[w] == r1[0];
        let v = choose|v: int| 0 <= v < r1.len() && r1[v] == r2[0];
        if w > 0 {
            assert(name_lt(r2[0].name, r2[w].name));
            if v == 0 {
                lemma_name_lt_irreflexive(r2[0].name);
            } else {
                assert(name_lt(r1[0].name, r1[v].name));
                lemma_name_lt_asymmetric(r1[0].name, r2[0].name);
            }
        }
        assert(r1[0] == r2[0]);
        let t1 = r1.drop_first();
        let t2 = r2.drop_first();
        assert forall|i: int, j: int| 0 <= i < j < t1.len() implies name_lt(
            #[trigger] t1[i].name,
            #[trigger] t1[j].name,
        ) by {
            assert(t1[i] == r1[i + 1] && t1[j] == r1[j + 1]);
        }
        assert forall|i: int, j: int| 0 <= i < j < t2.len() implies name_lt(
            #[trigger] t2[i].name,
            #[trigger] t2[j].name,
        ) by {
            assert(t2[i] == r2[i + 1] && t2[j] == r2[j + 1]);
        }
        assert forall|k: int| 0 <= k < t1.len() implies t2.contains(#[trigger] t1[k]) by {
            assert(t1[k] == r1[k + 1]);
            assert(r2.contains(r1[k + 1]));
            let u = choose|u: int| 0 <= u < r2.len() && r2[u] == r1[k + 1];
            if u == 0 {
                assert(name_lt(r1[0].name, r1[k + 1].name));
                lemma_name_lt_irreflexive(r1[0].name);
            }
            assert(t2[u - 1] == t1[k]);
        }
        assert forall|k: int| 0 <= k < t2.len() implies t1.contains(#[trigger] t2[k]) by {
            assert(t2[k] == r2[k + 1]);
            assert(r1.contains(r2[k + 1]));
            let u = choose|u: int| 0 <= u < r1.len() && r1[u] == r2[k + 1];
            if u == 0 {
                assert(name_lt(r2[0].name, r2[k + 1].name));
                lemma_name_lt_irreflexive(r2[0].name);
            }
            assert(t1[u - 1] == t2[k]);
        }
        lemma_sorted_unique(t1, t2);
        assert(r1 =~= r2) by {
            assert forall|k: int| 0 <= k < r1.len() implies r1[k] == r2[k] by {
                if k > 0 {
                    assert(r1[k] == t1[k - 1] && r2[k] == t2[k - 1]);
                }
            }
        }
    }
}

/// The order of the files does not matter: two sets that hold the same
/// files in different orders canonicalise alike, and when one succeeds both
/// give the same canonical files.
pub proof fn lemma_canonicalize_order_independent(
    a: Seq<FileModel>,
    b: Seq<FileModel>,
    source: Seq<char>,
    canonical: Seq<char>,
)
    requires
        is_permutation_of(a, b),
    ensures
        canonical_outcome(a, source, canonical) is Ok <==> canonical_outcome(b, source, canonical) is Ok,
        canonical_outcome(a, source, canonical) is Ok ==> canonical_outcome(a, source, canonical)
            == canonical_outcome(b, source, canonical),
{
    lemma_permutation_symmetric(a, b);
    if canonical_outcome(a, source, canonical) is Ok {
        lemma_ok_reordered(a, b, source, canonical);
    }
    if canonical_outcome(b, source, canonical) is Ok {
        lemma_ok_reordered(b, a, source, canonical);
    }
}

/// When a set canonicalises, so does any reordering of it, to the same files.
proof fn lemma_ok_reordered(a: Seq<FileModel>, b: Seq<FileModel>, source: Seq<char>, canonical: Seq<char>)
    requires
        is_permutation_of(a, b),
        canonical_outcome(a, source, canonical) is Ok,
    ensures
        canonical_outcome(a, source, canonical) == canonical_outcome(b, source, canonical),
{
    let p = choose|p: Seq<int>| is_reordering(p, a, b);
    lemma_no_fault_names(a, source, canonical, 0);
    lemma_well_formed_reordered(a, b, source, canonical);
    lemma_well_formed_no_fault(b, source, canonical, 0);
    lemma_root_reordered(a, b, source);
    assert(canonical_outcome(b, source, canonical) is Ok);
    lemma_canonical_files_sorted(a, source, canonical);
    lemma_canonical_files_sorted(b, source, canonical);
    let all_a = canonical_prefix(a, source, canonical, a.len() as int);
    let all_b = canonical_prefix(b, source, canonical, b.len() as int);
    let r1 = canonical_outcome(a, source, canonical)->Ok_0;
    let r2 = canonical_outcome(b, source, canonical)->Ok_0;
    assert forall|k: int| 0 <= k < r1.len() implies r2.contains(#[trigger] r1[k]) by {
        let u = choose|u: int| 0 <= u < all_a.len() && all_a[u] == r1[k];
        assert(all_b[p[u]] == all_a[u]);
        let v = choose|v: int| 0 <= v < r2.len() && r2[v] == all_b[p[u]];
    }
    assert forall|k: int| 0 <= k < r2.len() implies r1.contains(#[trigger] r2[k]) by {
        let u = choose|u: int| 0 <= u < all_b.len() && all_b[u] == r2[k];
        assert(has_preimage(p, a.len() as int, u));
        let i = choose|i: int| 0 <= i < a.len() && #[trigger] p[i] == u;
        assert(all_a[i] == all_b[u]);
        let v = choose|v: int| 0 <= v < r1.len() && r1[v] == all_a[i];
    }
    lemma_sorted_unique(r1, r2);
}


/// File `k` breaks the naming rules: once canonicalised it has no name, or
/// the name of an earlier file.
pub open spec fn badly_named(files: Seq<FileModel>, source: Seq<char>, canonical: Seq<char>, k: int) -> bool {
    ||| canonical_name(files, source, canonical, k) is None
    ||| exists|j: int| 0 <= j < k && canonical_name(files, source, canonical, j) == canonical_name(files, source, canonical, k)
}

/// The fault that a badly named file `k` causes.
pub open spec fn naming_fault(files: Seq<FileModel>, source: Seq<char>, canonical: Seq<char>, k: int) -> DescriptorFault {
    match canonical_name(files, source, canonical, k) {
        None => DescriptorFault::FileWithoutName,
        Some(n) => DescriptorFault::DuplicateFileName(n),
    }
}

/// With no badly named file in `[i, k)`, the search for the first fault
/// passes over them.
proof fn lemma_first_fault_skips(files: Seq<FileModel>, source: Seq<char>, canonical: Seq<char>, i: int, k: int)
    requires
        0 <= i <= k <= files.len(),
        forall|j: int| i <= j < k ==> !#[trigger] badly_named(files, source, canonical, j),
    ensures
        first_fault(files, source, canonical, i) == first_fault(files, source, canonical, k),
    decreases k - i,
{
    if i < k {
        assert(!badly_named(files, source, canonical, i));
        lemma_first_fault_skips(files, source, canonical, i + 1, k);
    }
}

/// When canonicalisation fails, and with which fault: it succeeds exactly
/// when every file has a name once the root is renamed, no two files share
/// one, and the root file is present. Otherwise the first badly named file
/// decides the fault (no name, or a repeated name), and with every file well
/// named a missing root gives `RootNotFound`.
pub proof fn lemma_canonicalize_fails_when(files: Seq<FileModel>, source: Seq<char>, canonical: Seq<char>)
    ensures
        canonical_outcome(files, source, canonical) is Ok <==> names_well_formed(files, source, canonical)
            && has_file_named(files, source),
        forall|k: int|
            0 <= k < files.len() && #[trigger] badly_named(files, source, canonical, k) && (forall|j: int|
                0 <= j < k ==> !badly_named(files, source, canonical, j)) ==> canonical_outcome(
                files,
                source,
                canonical,
            ) == Err::<Seq<FileModel>, (Seq<FileModel>, DescriptorFault)>(
                (
                    canonical_prefix(files, source, canonical, k + 1),
                    naming_fault(files, source, canonical, k),
                ),
            ),
        names_well_formed(files, source, canonical) && !has_file_named(files, source)
            ==> canonical_outcome(files, source, canonical) == Err::<Seq<FileModel>, (Seq<FileModel>, DescriptorFault)>(
                (
                    canonical_prefix(files, source, canonical, files.len() as int),
                    DescriptorFault::RootNotFound(source),
                ),
            ),
{
    if names_well_formed(files, source, canonical) {
        lemma_well_formed_no_fault(files, source, canonical, 0);
        assert forall|k: int| 0 <= k < files.len() implies !#[trigger] badly_named(files, source, canonical, k) by {
            assert(canonical_name(files, source, canonical, k) is Some);
            assert forall|j: int| 0 <= j < k implies canonical_name(files, source, canonical, j)
                != canonical_name(files, source, canonical, k) by {
            }
        }
    } else {
        if first_fault(files, source, canonical, 0) is None {
            lemma_no_fault_names(files, source, canonical, 0);
            assert(names_well_formed(files, source, canonical));
        }
    }
    assert forall|k: int|
        0 <= k < files.len() && #[trigger] badly_named(files, source, canonical, k) && (forall|j: int|
            0 <= j < k ==> !badly_named(files, source, canonical, j)) implies canonical_outcome(
            files,
            source,
            canonical,
        ) == Err::<Seq<FileModel>, (Seq<FileModel>, DescriptorFault)>(
            (canonical_prefix(files, source, canonical, k + 1), naming_fault(files, source, canonical, k)),
        ) by {
        lemma_first_fault_skips(files, source, canonical, 0, k);
    }
}


/// `g` is what canonicalisation may make of `f`: the package, the numbers of
/// messages, enums and services and the rest of the descriptor are kept, the
/// source locations are dropped, and the name `source`, as the file's own
/// name or as an import, becomes `canonical`; every other name and import
/// stays as it was, in its place.
pub open spec fn carried_over(f: FileModel, g: FileModel, source: Seq<char>, canonical: Seq<char>) -> bool {
    &&& g.package == f.package
    &&& g.message_count == f.message_count
    &&& g.enum_count == f.enum_count
    &&& g.service_count == f.service_count
    &&& g.body == f.body
    &&& g.source_info is None
    &&& g.dependency.len() == f.dependency.len()
    &&& forall|j: int|
        0 <= j < f.dependency.len() ==> #[trigger] g.dependency[j] == (if f.dependency[j] == source {
            canonical
        } else {
            f.dependency[j]
        })
    &&& f.name is None ==> g.name is None
    &&& f.name matches Some(n) ==> g.name == Some(if n == source { canonical } else { n })
}

proof fn lemma_canonical_file_carried_over(f: FileModel, source: Seq<char>, canonical: Seq<char>)
    ensures
        carried_over(f, canonical_file(f, source, canonical), source, canonical),
{
}

/// Every file of `out` is carried over from a file of `files`, and every
/// file of `files` into a file of `out`; the two have the same length.
pub open spec fn carried_one_for_one(
    files: Seq<FileModel>,
    out: Seq<FileModel>,
    source: Seq<char>,
    canonical: Seq<char>,
) -> bool {
    &&& out.len() == files.len()
    &&& forall|i: int|
        0 <= i < out.len() ==> exists|k: int|
            0 <= k < files.len() && carried_over(files[k], #[trigger] out[i], source, canonical)
    &&& forall|k: int|
        0 <= k < files.len() ==> exists|i: int|
            0 <= i < out.len() && carried_over(#[trigger] files[k], out[i], source, canonical)
}

/// Each file of `left` is the file of `files` at its place, or carried over
/// from it.
pub open spec fn left_or_carried_over(
    files: Seq<FileModel>,
    left: Seq<FileModel>,
    source: Seq<char>,
    canonical: Seq<char>,
) -> bool {
    &&& left.len() == files.len()
    &&& forall|i: int|
        0 <= i < left.len() ==> #[trigger] left[i] == files[i] || carried_over(files[i], left[i], source, canonical)
}

proof fn lemma_prefix_carried_over(files: Seq<FileModel>, source: Seq<char>, canonical: Seq<char>, m: int)
    ensures
        left_or_carried_over(files, canonical_prefix(files, source, canonical, m), source, canonical),
{
    let left = canonical_prefix(files, source, canonical, m);
    assert forall|i: int| 0 <= i < left.len() implies #[trigger] left[i] == files[i] || carried_over(
        files[i],
        left[i],
        source,
        canonical,
    ) by {
        lemma_canonical_file_carried_over(files[i], source, canonical);
    }
}

proof fn lemma_sorted_carried_over(files: Seq<FileModel>, source: Seq<char>, canonical: Seq<char>)
    ensures
        carried_one_for_one(
            files,
            sort_by_name(canonical_prefix(files, source, canonical, files.len() as int)),
            source,
            canonical,
        ),
{
    let all = canonical_prefix(files, source, canonical, files.len() as int);
    let out = sort_by_name(all);
    lemma_sort_members(all);
    assert forall|i: int| 0 <= i < out.len() implies exists|k: int|
        0 <= k < files.len() && carried_over(files[k], #[trigger] out[i], source, canonical) by {
        let k = choose|k: int| 0 <= k < all.len() && all[k] == out[i];
        lemma_canonical_file_carried_over(files[k], source, canonical);
        assert(all[k] == canonical_file(files[k], source, canonical));
    }
    assert forall|k: int| 0 <= k < files.len() implies exists|i: int|
        0 <= i < out.len() && carried_over(#[trigger] files[k], out[i], source, canonical) by {
        lemma_canonical_file_carried_over(files[k], source, canonical);
        assert(all[k] == canonical_file(files[k], source, canonical));
        assert(out.contains(all[k]));
        let i = choose|i: int| 0 <= i < out.len() && out[i] == all[k];
    }
}

/// Canonicalisation touches only source locations, the root file's name and
/// the imports of it. On success every canonical file is carried over from
/// one of the input files and every input file is carried over into one of
/// the canonical files; on failure each file is either left as it was or
/// carried over.
pub proof fn lemma_canonicalize_keeps_content(files: Seq<FileModel>, source: Seq<char>, canonical: Seq<char>)
    ensures
        canonical_outcome(files, source, canonical) matches Ok(out) ==> carried_one_for_one(
            files,
            out,
            source,
            canonical,
        ),
        canonical_outcome(files, source, canonical) matches Err((left, _)) ==> left_or_carried_over(
            files,
            left,
            source,
            canonical,
        ),
{
    lemma_sorted_carried_over(files, source, canonical);
    lemma_prefix_carried_over(files, source, canonical, files.len() as int);
    if let Some((k, fault)) = first_fault(files, source, canonical, 0) {
        lemma_prefix_carried_over(files, source, canonical, k + 1);
    }
}

} // verus!
