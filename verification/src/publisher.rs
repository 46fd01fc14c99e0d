use vstd::prelude::*;
use crate::orgtag::{OrgFile, OrgFileView, Wiki, files_view, strings_view, EXPORT_PATH};
use crate::text::{last_segment, last_path_segment};

verus! {

/// `f` links to the org file named `name`.
pub open spec fn refers_to(f: OrgFileView, name: Seq<char>) -> bool {
    f.referenced_file_paths.contains(name)
}

/// The positions, in order, of the notes that link to the org file `name`.
pub open spec fn referring_indices(files: Seq<OrgFileView>, name: Seq<char>) -> Seq<int>
    decreases files.len(),
{
    if files.len() == 0 {
        Seq::empty()
    } else {
        let rest = referring_indices(files.drop_last(), name);
        if refers_to(files.last(), name) {
            rest.push(files.len() - 1)
        } else {
            rest
        }
    }
}

/// The positions as integers.
pub open spec fn positions_view(v: Seq<usize>) -> Seq<int> {
    v.map_values(|k: usize| k as int)
}

/// `v` holds `s`.
pub fn contains_string(v: &Vec<String>, s: &String) -> (r: bool)
    ensures
        r == strings_view(v@).contains(s@),
{
    let mut k: usize = 0;
    while k < v.len()
        invariant
            0 <= k <= v@.len(),
            forall|j: int| 0 <= j < k ==> v@[j]@ != s@,
        decreases v@.len() - k,
    {
        if v[k] == *s {
            assert(strings_view(v@)[k as int] == s@);
            return true;
        }
        k = k + 1;
    }
    proof {
        if strings_view(v@).contains(s@) {
            let j = choose|j: int| 0 <= j < strings_view(v@).len() && strings_view(v@)[j] == s@;
            assert(v@[j]@ == s@);
        }
    }
    false
}

/// The file a page named `name` is written to: `<export path><name>`.
pub fn export_path(name: &str) -> (r: String)
    ensures
        r@ == EXPORT_PATH@ + name@,
{
    let mut path = Wiki::base_export_path();
    path.append(name);
    path
}

/// The file the page of `file` is written to: `<export path><title>.html`.
pub fn page_output_path(file: &OrgFile) -> (r: String)
    ensures
        r@ == EXPORT_PATH@ + file.title@ + ".html"@,
{
    let mut path = Wiki::base_export_path();
    path.append(file.title.as_str());
    path.append(".html");
    path
}

/// The positions, in order, of the notes of `wiki` that link to the org file
/// of `file` (the last part of its path): the backlinks of its page.
pub fn referring_files(wiki: &Wiki, file: &OrgFile) -> (r: Vec<usize>)
    ensures
        positions_view(r@) == referring_indices(files_view(wiki.files@), last_segment(file.path@)),
        forall|k: int|
            0 <= k < r@.len() ==> (r@[k] as int) < wiki.files@.len()
                && wiki.files@[r@[k] as int]@.referenced_file_paths.contains(last_segment(file.path@)),
        forall|i: int|
            0 <= i < wiki.files@.len() && wiki.files@[i]@.referenced_file_paths.contains(last_segment(file.path@))
                ==> r@.contains(i as usize),
        forall|a: int, b: int| 0 <= a < b < r@.len() ==> r@[a] < r@[b],
{
    let org_path = last_path_segment(file.path.as_str());
    let ghost fv = files_view(wiki.files@);
    let mut result: Vec<usize> = Vec::new();
    let mut i: usize = 0;
    while i < wiki.files.len()
        invariant
            fv == files_view(wiki.files@),
            fv.len() == wiki.files@.len(),
            org_path@ == last_segment(file.path@),
            0 <= i <= fv.len(),
            positions_view(result@) == referring_indices(fv.subrange(0, i as int), org_path@),
        decreases fv.len() - i,
    {
        let ghost pre = fv.subrange(0, i + 1);
        assert(pre.drop_last() =~= fv.subrange(0, i as int));
        assert(pre.last() == wiki.files@[i as int]@);
        let ghost before = positions_view(result@);
        if contains_string(&wiki.files[i].referenced_file_paths, &org_path) {
            result.push(i);
            assert(positions_view(result@) =~= before.push(i as int));
        }
        i = i + 1;
    }
    assert(fv.subrange(0, fv.len() as int) =~= fv);
    proof {
        let name = last_segment(file.path@);
        lemma_backlinks_are_exact(fv, name);
        let ri = referring_indices(fv, name);
        assert forall|k: int| 0 <= k < result@.len() implies (result@[k] as int) < wiki.files@.len()
            && wiki.files@[result@[k] as int]@.referenced_file_paths.contains(name) by {
            assert(positions_view(result@)[k] == ri[k]);
            assert(fv[ri[k]] == wiki.files@[ri[k]]@);
        }
        assert forall|i: int| 0 <= i < wiki.files@.len() && wiki.files@[i]@.referenced_file_paths.contains(name)
            implies result@.contains(i as usize) by {
            assert(fv[i] == wiki.files@[i]@);
            let k = choose|k: int| 0 <= k < ri.len() && ri[k] == i;
            assert(positions_view(result@)[k] == ri[k]);
            assert(result@[k] == i as usize);
        }
        assert forall|a: int, b: int| 0 <= a < b < result@.len() implies result@[a] < result@[b] by {
            assert(positions_view(result@)[a] == ri[a]);
            assert(positions_view(result@)[b] == ri[b]);
        }
    }
    result
}

/// The backlinks of a page are exactly the notes that hold the page's file
/// name among their references (equal, not merely ending in it), each once,
/// in order.
pub proof fn lemma_backlinks_are_exact(files: Seq<OrgFileView>, name: Seq<char>)
    ensures
        forall|k: int|
            0 <= k < referring_indices(files, name).len() ==> 0 <= #[trigger] referring_indices(files, name)[k] < files.len()
                && files[referring_indices(files, name)[k]].referenced_file_paths.contains(name),
        forall|i: int|
            0 <= i < files.len() && #[trigger] files[i].referenced_file_paths.contains(name)
                ==> referring_indices(files, name).contains(i),
        forall|a: int, b: int|
            0 <= a < b < referring_indices(files, name).len() ==> referring_indices(files, name)[a]
                < referring_indices(files, name)[b],
    decreases files.len(),
{
    if files.len() > 0 {
        let front = files.drop_last();
        lemma_backlinks_are_exact(front, name);
        let rest = referring_indices(front, name);
        let ri = referring_indices(files, name);
        assert forall|k: int| 0 <= k < ri.len() implies 0 <= #[trigger] ri[k] < files.len()
            && files[ri[k]].referenced_file_paths.contains(name) by {
            if k < rest.len() {
                assert(ri[k] == rest[k]);
                assert(files[rest[k]] == front[rest[k]]);
            }
        }
        assert forall|i: int| 0 <= i < files.len() && #[trigger] files[i].referenced_file_paths.contains(name)
            implies ri.contains(i) by {
            if i < files.len() - 1 {
                assert(front[i] == files[i]);
                assert(front[i].referenced_file_paths.contains(name));
                let k = choose|k: int| 0 <= k < rest.len() && rest[k] == i;
                assert(ri[k] == i);
            } else {
                assert(ri[rest.len() as int] == i);
            }
        }
        assert forall|a: int, b: int| 0 <= a < b < ri.len() implies ri[a] < ri[b] by {
            if b < rest.len() {
                assert(ri[a] == rest[a]);
                assert(ri[b] == rest[b]);
            } else {
                assert(ri[a] == rest[a]);
                assert(0 <= rest[a] < front.len());
            }
        }
    }
}

/// Which optional parts the page of `file` shows: `.0`, its tags, where it
/// carries any; `.1`, what links to it, where `backlinks` (the positions of
/// the notes that link to it) is not empty.
pub fn page_sections(file: &OrgFile, backlinks: &Vec<usize>) -> (r: (bool, bool))
    ensures
        r == (file.tags@.len() > 0, backlinks@.len() > 0),
{
    (file.tags.len() > 0, backlinks.len() > 0)
}

} // verus!
