//! Canonicalisation of a descriptor set: source locations dropped, the root
//! file renamed, names checked for uniqueness, files sorted by name.

use vstd::prelude::*;
use crate::descriptor_eq::model::{
    canonical_file, canonical_name, canonical_outcome, canonical_prefix, files_view, first_fault,
    insert_by_name, name_lt, renamed, sort_by_name, DescriptorError, DescriptorFault, DescriptorFile,
    DescriptorSet, FileModel,
};
use crate::descriptor_eq::text::{same_text, text_lt};

verus! {

/// Whether file name `a` sorts before file name `b`.
fn option_name_lt(a: &Option<String>, b: &Option<String>) -> (r: bool)
    ensures
        r == name_lt(a.deep_view(), b.deep_view()),
{
    match (a, b) {
        (None, Some(_)) => true,
        (Some(x), Some(y)) => text_lt(x.as_str(), y.as_str()),
        _ => false,
    }
}

/// The index at which `x` goes into the sorted `out`: after every file
/// whose name does not come after `x`'s.
fn insert_position(out: &Vec<DescriptorFile>, x: &DescriptorFile) -> (k: usize)
    ensures
        k <= out@.len(),
        forall|j: int| 0 <= j < k ==> !name_lt(x@.name, #[trigger] out@[j]@.name),
        k < out@.len() ==> name_lt(x@.name, out@[k as int]@.name),
{
    let mut k: usize = 0;
    while k < out.len()
        invariant
            k <= out@.len(),
            forall|j: int| 0 <= j < k ==> !name_lt(x@.name, #[trigger] out@[j]@.name),
        decreases out@.len() - k,
    {
        if option_name_lt(&x.name, &out[k].name) {
            return k;
        }
        k = k + 1;
    }
    k
}

/// Inserting at the first position whose name comes after `x`'s is what
/// `insert_by_name` does.
proof fn lemma_insert_by_name_at(s: Seq<FileModel>, x: FileModel, k: int)
    requires
        0 <= k <= s.len(),
        forall|j: int| 0 <= j < k ==> !name_lt(x.name, #[trigger] s[j].name),
        k < s.len() ==> name_lt(x.name, s[k].name),
    ensures
        insert_by_name(s, x) == s.insert(k, x),
    decreases s.len(),
{
    if s.len() == 0 {
        assert(s.insert(k, x) =~= seq![x]);
    } else if k == 0 {
        assert(s.insert(k, x) =~= seq![x] + s);
    } else {
        let t = s.drop_first();
        assert forall|j: int| 0 <= j < k - 1 implies !name_lt(x.name, #[trigger] t[j].name) by {
            assert(t[j] == s[j + 1]);
        }
        lemma_insert_by_name_at(t, x, k - 1);
        assert(s.insert(k, x) =~= seq![s[0]] + t.insert(k - 1, x));
    }
}

/// The files stably sorted by name.
fn sort_files_by_name(files: Vec<DescriptorFile>) -> (r: Vec<DescriptorFile>)
    ensures
        files_view(r@) == sort_by_name(files_view(files@)),
{
    let ghost all = files_view(files@);
    let n = files.len();
    let mut rest = files;
    let mut out: Vec<DescriptorFile> = Vec::new();
    let mut i: usize = 0;
    assert(all.take(0) =~= Seq::<FileModel>::empty());
    assert(files_view(out@) =~= Seq::<FileModel>::empty());
    assert(files_view(rest@) =~= all.subrange(0, n as int));
    while i < n
        invariant
            n == all.len(),
            i <= n,
            rest@.len() == n - i,
            files_view(rest@) =~= all.subrange(i as int, n as int),
            files_view(out@) == sort_by_name(all.take(i as int)),
        decreases n - i,
    {
        let ghost before = files_view(out@);
        let ghost rest_before = files_view(rest@);
        let x = rest.remove(0);
        assert(x@ == rest_before[0]);
        assert(x@ == all[i as int]);
        assert(files_view(rest@) =~= all.subrange(i + 1, n as int)) by {
            assert(files_view(rest@) =~= rest_before.drop_first());
        }
        let k = insert_position(&out, &x);
        proof {
            assert forall|j: int| 0 <= j < k implies !name_lt(x@.name, #[trigger] before[j].name) by {
                assert(before[j] == out@[j]@);
            }
            if k < out@.len() {
                assert(before[k as int] == out@[k as int]@);
            }
            lemma_insert_by_name_at(before, x@, k as int);
            assert(all.take(i + 1).drop_last() =~= all.take(i as int));
        }
        out.insert(k, x);
        assert(files_view(out@) =~= before.insert(k as int, x@));
        i = i + 1;
    }
    assert(all.take(n as int) =~= all);
    out
}

/// The dependency list with `source` replaced by `canonical`.
fn renamed_dependencies(deps: &Vec<String>, source: &str, canonical: &str) -> (r: Vec<String>)
    ensures
        r.deep_view() =~= deps.deep_view().map_values(
            |d: Seq<char>| renamed(d, source@, canonical@),
        ),
{
    let mut out: Vec<String> = Vec::new();
    let mut i: usize = 0;
    while i < deps.len()
        invariant
            i <= deps@.len(),
            out@.len() == i,
            forall|j: int|
                0 <= j < i ==> (#[trigger] out@[j])@ == renamed(deps@[j]@, source@, canonical@),
        decreases deps@.len() - i,
    {
        if same_text(deps[i].as_str(), source) {
            out.push(canonical.to_owned());
        } else {
            out.push(deps[i].clone());
        }
        i = i + 1;
    }
    out
}

/// Whether the file name is `text`.
fn name_is(name: &Option<String>, text: &str) -> (r: bool)
    ensures
        r == (name.deep_view() == Some(text@)),
{
    match name {
        Some(n) => same_text(n.as_str(), text),
        None => false,
    }
}

/// The file with source locations dropped and `source` renamed to
/// `canonical`, and whether the file was the one named `source`.
fn canonical_form(file: DescriptorFile, source: &str, canonical: &str) -> (r: (DescriptorFile, bool))
    ensures
        r.0@ == canonical_file(file@, source@, canonical@),
        r.1 == (file@.name == Some(source@)),
{
    let DescriptorFile {
        name,
        package,
        dependency,
        source_info: _,
        message_count,
        enum_count,
        service_count,
        body,
    } = file;
    let is_root = name_is(&name, source);
    let new_name = if is_root {
        Some(canonical.to_owned())
    } else {
        name
    };
    let deps = renamed_dependencies(&dependency, source, canonical);
    let out = DescriptorFile {
        name: new_name,
        package,
        dependency: deps,
        source_info: None,
        message_count,
        enum_count,
        service_count,
        body,
    };
    proof {
        let c = canonical_file(file@, source@, canonical@);
        assert(out@.dependency =~= c.dependency);
        assert(out@.name == c.name);
    }
    (out, is_root)
}

/// Whether one of `names` equals `name`.
fn contains_text(names: &Vec<String>, name: &str) -> (r: bool)
    ensures
        r == exists|j: int| 0 <= j < names@.len() && (#[trigger] names@[j])@ == name@,
{
    let mut i: usize = 0;
    while i < names.len()
        invariant
            i <= names@.len(),
            forall|j: int| 0 <= j < i ==> (#[trigger] names@[j])@ != name@,
        decreases names@.len() - i,
    {
        if same_text(names[i].as_str(), name) {
            return true;
        }
        i = i + 1;
    }
    false
}

/// The files rewritten so far, the file just rewritten and the files not
/// yet reached, back in one list.
fn rejoin(
    done: Vec<DescriptorFile>,
    file: DescriptorFile,
    rest: Vec<DescriptorFile>,
    Ghost(files0): Ghost<Seq<FileModel>>,
    Ghost(src): Ghost<Seq<char>>,
    Ghost(canon): Ghost<Seq<char>>,
) -> (r: Vec<DescriptorFile>)
    requires
        done@.len() + 1 + rest@.len() == files0.len(),
        forall|j: int|
            0 <= j < done@.len() ==> (#[trigger] done@[j])@ == canonical_file(files0[j], src, canon),
        file@ == canonical_file(files0[done@.len() as int], src, canon),
        files_view(rest@) =~= files0.subrange(done@.len() as int + 1, files0.len() as int),
    ensures
        files_view(r@) =~= canonical_prefix(files0, src, canon, done@.len() as int + 1),
{
    let ghost k = done@.len() as int;
    let ghost rest0 = rest@;
    let mut out = done;
    let mut tail = rest;
    out.push(file);
    out.append(&mut tail);
    proof {
        assert forall|j: int| 0 <= j < files0.len() implies files_view(out@)[j]
            == canonical_prefix(files0, src, canon, k + 1)[j] by {
            if j > k {
                assert(out@[j] == rest0[j - k - 1]);
                assert(files_view(rest0)[j - k - 1] == rest0[j - k - 1]@);
            }
        }
    }
    out
}

/// Canonicalises `set` in place for comparison: every file loses its source
/// locations; the file named `source_root_file` is renamed to
/// `canonical_root_file`, and so is every import of it; every file must then
/// carry a name, and no name twice; the root file must be present; and the
/// files are sorted by name.
///
/// Files are rewritten in order, and the first file that breaks the naming
/// rules stops the work: it and the files before it are left rewritten, the
/// rest untouched, and the order is kept. A missing root leaves every file
/// rewritten, unsorted.
pub fn canonicalize(
    set: &mut DescriptorSet,
    source_root_file: &str,
    canonical_root_file: &str,
) -> (r: Result<(), DescriptorError>)
    ensures
        match canonical_outcome(old(set)@, source_root_file@, canonical_root_file@) {
            Ok(files) => r is Ok && final(set)@ == files,
            Err((files, fault)) => r matches Err(e) && e@ == fault && final(set)@ == files,
        },
{
    let ghost files0 = set@;
    let ghost src = source_root_file@;
    let ghost canon = canonical_root_file@;
    let mut rest: Vec<DescriptorFile> = Vec::new();
    std::mem::swap(&mut rest, &mut set.files);
    let n = rest.len();
    let mut done: Vec<DescriptorFile> = Vec::new();
    let mut seen: Vec<String> = Vec::new();
    let mut found_root = false;
    let mut i: usize = 0;
    assert(files_view(rest@) =~= files0.subrange(0, n as int));
    while i < n
        invariant
            files0 == old(set)@,
            src == source_root_file@,
            canon == canonical_root_file@,
            n == files0.len(),
            i <= n,
            rest@.len() == n - i,
            files_view(rest@) =~= files0.subrange(i as int, n as int),
            done@.len() == i,
            forall|j: int| 0 <= j < i ==> (#[trigger] done@[j])@ == canonical_file(files0[j], src, canon),
            seen@.len() == i,
            forall|j: int| 0 <= j < i ==> Some((#[trigger] seen@[j])@) == canonical_name(files0, src, canon, j),
            first_fault(files0, src, canon, 0) == first_fault(files0, src, canon, i as int),
            found_root == exists|j: int| 0 <= j < i && files0[j].name == Some(src),
        decreases n - i,
    {
        let ghost rest_before = files_view(rest@);
        let next = rest.remove(0);
        let ghost original = next@;
        assert(rest_before[0] == original);
        assert(original == files0[i as int]);
        assert(files_view(rest@) =~= files0.subrange(i + 1, n as int)) by {
            assert(files_view(rest@) =~= rest_before.drop_first());
        }
        let (file, is_root) = canonical_form(next, source_root_file, canonical_root_file);
        if is_root {
            found_root = true;
        }
        let ghost name_now = canonical_name(files0, src, canon, i as int);
        assert(name_now == file@.name);
        let checked: Option<String> = match &file.name {
            Some(name) => Some(name.clone()),
            None => None,
        };
        match checked {
            None => {
                assert(first_fault(files0, src, canon, i as int) == Some(
                    (i as int, DescriptorFault::FileWithoutName),
                ));
                set.files = rejoin(done, file, rest, Ghost(files0), Ghost(src), Ghost(canon));
                return Err(DescriptorError::FileWithoutName);
            },
            Some(name) => {
                if contains_text(&seen, name.as_str()) {
                    proof {
                        let j = choose|j: int| 0 <= j < seen@.len() && (#[trigger] seen@[j])@ == name@;
                        assert(canonical_name(files0, src, canon, j) == name_now);
                        assert(first_fault(files0, src, canon, i as int) == Some(
                            (i as int, DescriptorFault::DuplicateFileName(name@)),
                        ));
                    }
                    set.files = rejoin(done, file, rest, Ghost(files0), Ghost(src), Ghost(canon));
                    return Err(DescriptorError::DuplicateFileName(name));
                }
                proof {
                    assert forall|j: int|
                        0 <= j < i implies canonical_name(files0, src, canon, j) != name_now by {
                        assert(Some(seen@[j]@) == canonical_name(files0, src, canon, j));
                    }
                }
                seen.push(name);
                done.push(file);
            },
        }
        i = i + 1;
    }
    assert(first_fault(files0, src, canon, n as int) is None);
    let ghost all = canonical_prefix(files0, src, canon, n as int);
    assert(files_view(done@) =~= all);
    if !found_root {
        set.files = done;
        return Err(DescriptorError::RootNotFound(source_root_file.to_owned()));
    }
    set.files = sort_files_by_name(done);
    Ok(())
}

} // verus!
