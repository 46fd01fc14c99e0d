use vstd::prelude::*;
use crate::helpers::{can_trim, trimmed, trim_start_end_char, can_trim_start_end_char};
use crate::orgtag::{OrgFile, OrgFileView, OrgTag, OrgTagView, Wiki, files_view, tags_view, strings_view};
use crate::sorting::{is_stable_sort, int_keys, stable_sort_by_keys};
use crate::dates::Timestamp;
use crate::grouping::{all_distinct, keys_of, first_seen, lemma_first_seen_contains};
use crate::orgtag::{files_by_tag, tag_file_pairs, tagged_with, lemma_files_by_tag};

verus! {

/// One row of the database's tag query: the (quoted) file of a node and one
/// of the node's tags.
pub struct TagRow {
    pub path: String,
    pub tag: String,
}

/// `i` is the first note whose path is `p`.
pub open spec fn is_first_with_path(files: Seq<OrgFileView>, p: Seq<char>, i: int) -> bool {
    &&& 0 <= i < files.len()
    &&& files[i].path == p
    &&& forall|j: int| 0 <= j < i ==> files[j].path != p
}

/// The first note whose path is `p`.
pub open spec fn first_with_path(files: Seq<OrgFileView>, p: Seq<char>) -> int {
    choose|i: int| is_first_with_path(files, p, i)
}

/// `g` is the first tag named `name`.
pub open spec fn is_first_named(tags: Seq<OrgTagView>, name: Seq<char>, g: int) -> bool {
    &&& 0 <= g < tags.len()
    &&& tags[g].name == name
    &&& forall|j: int| 0 <= j < g ==> tags[j].name != name
}

/// Some tag is named `name`.
pub open spec fn has_tag_named(tags: Seq<OrgTagView>, name: Seq<char>) -> bool {
    exists|g: int| 0 <= g < tags.len() && #[trigger] tags[g].name == name
}

/// The first tag named `name`.
pub open spec fn first_named(tags: Seq<OrgTagView>, name: Seq<char>) -> int {
    choose|g: int| is_first_named(tags, name, g)
}

/// A row can be applied: its quoted path can be unquoted and names a note.
pub open spec fn row_resolvable(files: Seq<OrgFileView>, path: Seq<char>) -> bool {
    &&& can_trim(path)
    &&& exists|i: int| 0 <= i < files.len() && #[trigger] files[i].path == trimmed(path)
}

/// What one tag row does: the first note at the row's (unquoted) path gets
/// the tag, and the note's title joins the first tag of that name, or a new
/// tag at the end where there is none.
pub open spec fn tag_row_step(
    files: Seq<OrgFileView>,
    tags: Seq<OrgTagView>,
    path: Seq<char>,
    tag: Seq<char>,
) -> (Seq<OrgFileView>, Seq<OrgTagView>) {
    let i = first_with_path(files, trimmed(path));
    let title = files[i].title;
    let new_files = files.update(i, OrgFileView { tags: files[i].tags.push(tag), ..files[i] });
    let new_tags = if has_tag_named(tags, tag) {
        let g = first_named(tags, tag);
        tags.update(g, OrgTagView { files: tags[g].files.push(title), ..tags[g] })
    } else {
        tags.push(OrgTagView { name: tag, files: seq![title] })
    };
    (new_files, new_tags)
}

/// The rows as (path, tag) pairs of character sequences.
pub open spec fn rows_view(rows: Seq<TagRow>) -> Seq<(Seq<char>, Seq<char>)> {
    rows.map_values(|r: TagRow| (r.path@, r.tag@))
}

/// The notes and tags after applying `rows` in order to `files`, starting
/// with no tags.
pub open spec fn read_tags_spec(
    files: Seq<OrgFileView>,
    rows: Seq<(Seq<char>, Seq<char>)>,
) -> (Seq<OrgFileView>, Seq<OrgTagView>)
    decreases rows.len(),
{
    if rows.len() == 0 {
        (files, Seq::empty())
    } else {
        let (f, t) = read_tags_spec(files, rows.drop_last());
        tag_row_step(f, t, rows.last().0, rows.last().1)
    }
}

/// Every row can be applied to `files`.
pub open spec fn rows_resolvable(files: Seq<OrgFileView>, rows: Seq<(Seq<char>, Seq<char>)>) -> bool {
    forall|k: int| 0 <= k < rows.len() ==> row_resolvable(files, #[trigger] rows[k].0)
}

/// Two sequences of notes have the same paths, note by note.
pub open spec fn same_paths(a: Seq<OrgFileView>, b: Seq<OrgFileView>) -> bool {
    &&& a.len() == b.len()
    &&& forall|k: int| 0 <= k < a.len() ==> #[trigger] a[k].path == b[k].path
}

/// A first match is the only one.
proof fn lemma_first_with_path_unique(files: Seq<OrgFileView>, p: Seq<char>, i: int)
    requires
        is_first_with_path(files, p, i),
    ensures
        first_with_path(files, p) == i,
{
    let c = first_with_path(files, p);
    assert(is_first_with_path(files, p, c));
    if c < i {
        assert(files[c].path != p);
    } else if c > i {
        assert(files[i].path != p);
    }
}

/// A first match is the only one.
proof fn lemma_first_named_unique(tags: Seq<OrgTagView>, name: Seq<char>, g: int)
    requires
        is_first_named(tags, name, g),
    ensures
        first_named(tags, name) == g,
{
    let c = first_named(tags, name);
    assert(is_first_named(tags, name, c));
    if c < g {
        assert(tags[c].name != name);
    } else if c > g {
        assert(tags[g].name != name);
    }
}

/// Applying rows keeps the paths of the notes.
proof fn lemma_read_tags_keeps_paths(files: Seq<OrgFileView>, rows: Seq<(Seq<char>, Seq<char>)>)
    requires
        rows_resolvable(files, rows),
    ensures
        same_paths(read_tags_spec(files, rows).0, files),
    decreases rows.len(),
{
    if rows.len() > 0 {
        let front = rows.drop_last();
        assert(rows_resolvable(files, front)) by {
            assert forall|k: int| 0 <= k < front.len() implies row_resolvable(files, #[trigger] front[k].0) by {
                assert(front[k] == rows[k]);
            }
        }
        lemma_read_tags_keeps_paths(files, front);
        let f = read_tags_spec(files, front).0;
        let p = trimmed(rows.last().0);
        assert(row_resolvable(files, rows[rows.len() - 1].0));
        let w = choose|i: int| 0 <= i < files.len() && #[trigger] files[i].path == p;
        assert(f[w].path == p);
        lemma_some_first_with_path(f, p, w);
    }
}

/// Where some note has path `p`, a first one does.
proof fn lemma_some_first_with_path(files: Seq<OrgFileView>, p: Seq<char>, w: int)
    requires
        0 <= w < files.len(),
        files[w].path == p,
    ensures
        is_first_with_path(files, p, first_with_path(files, p)),
    decreases w,
{
    if exists|j: int| 0 <= j < w && files[j].path == p {
        let j = choose|j: int| 0 <= j < w && files[j].path == p;
        lemma_some_first_with_path(files, p, j);
    } else {
        assert(is_first_with_path(files, p, w));
    }
}

/// The first note whose path is `path`.
fn find_file_with_path(files: &Vec<OrgFile>, path: &String) -> (r: Option<usize>)
    ensures
        r matches Some(i) ==> is_first_with_path(files_view(files@), path@, i as int),
        r is None ==> forall|k: int| 0 <= k < files@.len() ==> files@[k].path@ != path@,
{
    let mut k: usize = 0;
    while k < files.len()
        invariant
            0 <= k <= files@.len(),
            forall|j: int| 0 <= j < k ==> files@[j].path@ != path@,
        decreases files@.len() - k,
    {
        if files[k].path == *path {
            return Some(k);
        }
        k = k + 1;
    }
    None
}

/// The first tag named `name`.
fn find_tag_named(tags: &Vec<OrgTag>, name: &String) -> (r: Option<usize>)
    ensures
        r matches Some(g) ==> is_first_named(tags_view(tags@), name@, g as int),
        r is None ==> !has_tag_named(tags_view(tags@), name@),
{
    let mut k: usize = 0;
    while k < tags.len()
        invariant
            0 <= k <= tags@.len(),
            forall|j: int| 0 <= j < k ==> tags@[j].name@ != name@,
        decreases tags@.len() - k,
    {
        if tags[k].name == *name {
            return Some(k);
        }
        k = k + 1;
    }
    proof {
        if has_tag_named(tags_view(tags@), name@) {
            let g = choose|g: int| 0 <= g < tags@.len() && #[trigger] tags_view(tags@)[g].name == name@;
            assert(tags@[g].name@ == name@);
        }
    }
    None
}

/// Tells whether a row can be applied to `files`: its path can be unquoted
/// and some note lies at the unquoted path.
pub fn tag_row_resolvable(files: &Vec<OrgFile>, row: &TagRow) -> (r: bool)
    ensures
        r == row_resolvable(files_view(files@), row.path@),
{
    if !can_trim_start_end_char(row.path.as_str()) {
        return false;
    }
    let path = trim_start_end_char(row.path.as_str());
    match find_file_with_path(files, &path) {
        Some(i) => {
            assert(files_view(files@)[i as int].path == trimmed(row.path@));
            true
        },
        None => {
            proof {
                if exists|i: int| 0 <= i < files@.len() && #[trigger] files_view(files@)[i].path == trimmed(row.path@) {
                    let i = choose|i: int| 0 <= i < files@.len() && #[trigger] files_view(files@)[i].path == trimmed(row.path@);
                    assert(files@[i].path@ == path@);
                }
            }
            false
        },
    }
}

/// Applies one tag row: the first note at the row's (unquoted) path gets the
/// tag, and its title joins the first tag of that name, or a new tag.
pub fn add_tag_row(files: &mut Vec<OrgFile>, tags: &mut Vec<OrgTag>, row: &TagRow)
    requires
        row_resolvable(files_view(old(files)@), row.path@),
    ensures
        (files_view(final(files)@), tags_view(final(tags)@)) == tag_row_step(
            files_view(old(files)@),
            tags_view(old(tags)@),
            row.path@,
            row.tag@,
        ),
{
    let ghost fv = files_view(files@);
    let ghost tv = tags_view(tags@);
    let path = trim_start_end_char(row.path.as_str());
    let i = match find_file_with_path(files, &path) {
        Some(i) => i,
        None => {
            proof {
                let w = choose|w: int| 0 <= w < fv.len() && #[trigger] fv[w].path == trimmed(row.path@);
                assert(files@[w].path@ == path@);
            }
            0
        },
    };
    proof {
        lemma_first_with_path_unique(fv, path@, i as int);
    }
    let mut file = files.remove(i);
    file.add_tag(row.tag.as_str());
    let tag_file = file.title.clone();
    let ghost file_view = file@;
    files.insert(i, file);
    proof {
        assert(files_view(files@) =~= fv.update(i as int, file_view));
    }
    match find_tag_named(tags, &row.tag) {
        Some(g) => {
            proof {
                lemma_first_named_unique(tv, row.tag@, g as int);
            }
            let mut tag = tags.remove(g);
            tag.add_path(tag_file);
            let ghost tag_view = tag@;
            tags.insert(g, tag);
            proof {
                assert(tags_view(tags@) =~= tv.update(g as int, tag_view));
            }
        },
        None => {
            let mut titles: Vec<String> = Vec::new();
            titles.push(tag_file);
            let tag = OrgTag { name: row.tag.clone(), files: titles };
            proof {
                assert(strings_view(tag.files@) =~= seq![fv[i as int].title]);
            }
            tags.push(tag);
            proof {
                assert(tags_view(tags@) =~= tv.push(tag@));
            }
        },
    }
}

/// Reads the tag rows into the notes: each row's tag goes to the first note
/// at its (unquoted) path, and the notes' titles are listed under each tag,
/// tags in order of first appearance.
pub fn read_tags(files: Vec<OrgFile>, rows: &Vec<TagRow>) -> (r: Wiki)
    requires
        rows_resolvable(files_view(files@), rows_view(rows@)),
    ensures
        (files_view(r.files@), tags_view(r.tags@)) == read_tags_spec(files_view(files@), rows_view(rows@)),
{
    let ghost start = files_view(files@);
    let ghost rv = rows_view(rows@);
    let mut files = files;
    let mut tags: Vec<OrgTag> = Vec::new();
    let mut k: usize = 0;
    proof {
        assert(rv.subrange(0, 0).len() == 0);
        assert(tags_view(tags@) =~= Seq::<OrgTagView>::empty());
    }
    while k < rows.len()
        invariant
            rv == rows_view(rows@),
            rv.len() == rows@.len(),
            rows_resolvable(start, rv),
            0 <= k <= rv.len(),
            (files_view(files@), tags_view(tags@)) == read_tags_spec(start, rv.subrange(0, k as int)),
        decreases rv.len() - k,
    {
        let ghost done = rv.subrange(0, k as int);
        let ghost next = rv.subrange(0, k + 1);
        proof {
            assert(next.drop_last() =~= done);
            assert(next.last() == rv[k as int]);
            assert(rows_resolvable(start, done)) by {
                assert forall|j: int| 0 <= j < done.len() implies row_resolvable(start, #[trigger] done[j].0) by {
                    assert(done[j] == rv[j]);
                }
            }
            lemma_read_tags_keeps_paths(start, done);
            assert(rv[k as int].0 == rows@[k as int].path@);
            assert(row_resolvable(start, rv[k as int].0));
            let w = choose|w: int| 0 <= w < start.len() && #[trigger] start[w].path == trimmed(rv[k as int].0);
            assert(files_view(files@)[w].path == start[w].path);
        }
        add_tag_row(&mut files, &mut tags, &rows[k]);
        k = k + 1;
    }
    proof {
        assert(rv.subrange(0, rv.len() as int) =~= rv);
    }
    Wiki { files, tags }
}

/// The notes other than the one titled `Recent changes`, in order.
pub open spec fn without_recent_changes(files: Seq<OrgFileView>) -> Seq<OrgFileView>
    decreases files.len(),
{
    if files.len() == 0 {
        Seq::empty()
    } else {
        let rest = without_recent_changes(files.drop_last());
        if files.last().title == "Recent changes"@ {
            rest
        } else {
            rest.push(files.last())
        }
    }
}

/// Nanoseconds since the Unix epoch.
pub open spec fn instant_nanos(t: Timestamp) -> int {
    t.secs * 1_000_000_000 + t.nanos
}

/// Sorting keys that put the most recently modified notes first.
pub open spec fn recency_keys(files: Seq<OrgFileView>) -> Seq<int> {
    files.map_values(|f: OrgFileView| -instant_nanos(f.modified))
}

/// The notes as the database query gives them, made ready for the wiki: the
/// note titled `Recent changes` is left out, and the rest are ordered by the
/// time elapsed since they were last modified, shortest first (most recently
/// modified first), notes modified at the same instant keeping their order.
pub fn read_files_from(candidates: Vec<OrgFile>) -> (r: Vec<OrgFile>)
    ensures
        is_stable_sort(
            files_view(r@),
            without_recent_changes(files_view(candidates@)),
            recency_keys(without_recent_changes(files_view(candidates@))),
        ),
{
    let ghost cv = files_view(candidates@);
    let n: usize = candidates.len();
    let recent = String::from_str("Recent changes");
    let mut rest = candidates;
    let mut kept: Vec<OrgFile> = Vec::new();
    let mut keys: Vec<i128> = Vec::new();
    let mut i: usize = 0;
    while i < n
        invariant
            n == cv.len(),
            recent@ == "Recent changes"@,
            0 <= i <= n,
            files_view(rest@) == cv.subrange(i as int, n as int),
            files_view(kept@) == without_recent_changes(cv.subrange(0, i as int)),
            keys@.len() == kept@.len(),
            forall|k: int| 0 <= k < keys@.len() ==> #[trigger] keys@[k] == -instant_nanos(kept@[k].modified),
        decreases n - i,
    {
        assert(files_view(rest@).len() == rest@.len());
        assert(files_view(rest@)[0] == cv[i as int]);
        let ghost old_rest = rest@;
        let file = rest.remove(0);
        assert(file@ == files_view(old_rest)[0]);
        proof {
            let pre = cv.subrange(0, i + 1);
            assert(pre.drop_last() =~= cv.subrange(0, i as int));
            assert(pre.last() == file@);
            assert(rest@ == old_rest.remove(0));
            assert forall|k: int| 0 <= k < rest@.len() implies files_view(rest@)[k] == cv.subrange(i + 1, n as int)[k] by {
                assert(rest@[k] == old_rest[k + 1]);
                assert(files_view(old_rest)[k + 1] == cv.subrange(i as int, n as int)[k + 1]);
            }
            assert(files_view(rest@) =~= cv.subrange(i + 1, n as int));
        }
        if file.title != recent {
            let key: i128 = -((file.modified.secs as i128) * 1_000_000_000 + (file.modified.nanos as i128));
            let ghost before = files_view(kept@);
            kept.push(file);
            keys.push(key);
            proof {
                assert(files_view(kept@) =~= before.push(kept@[kept@.len() - 1]@));
            }
        }
        i = i + 1;
    }
    proof {
        assert(cv.subrange(0, n as int) =~= cv);
        assert(int_keys(keys@) =~= recency_keys(files_view(kept@)));
    }
    let ghost unsorted = kept@;
    let sorted = stable_sort_by_keys(kept, &keys);
    proof {
        crate::orgtag::lemma_sort_of_views(sorted@, unsorted, int_keys(keys@));
    }
    sorted
}

/// How often `name` occurs among `tags`.
pub open spec fn tag_count(tags: Seq<Seq<char>>, name: Seq<char>) -> nat
    decreases tags.len(),
{
    if tags.len() == 0 {
        0
    } else {
        tag_count(tags.drop_last(), name) + if tags.last() == name { 1nat } else { 0nat }
    }
}

/// How often the notes carry the tag `name`, over all notes.
pub open spec fn tag_occurrences(files: Seq<OrgFileView>, name: Seq<char>) -> nat
    decreases files.len(),
{
    if files.len() == 0 {
        0
    } else {
        tag_occurrences(files.drop_last(), name) + tag_count(files.last().tags, name)
    }
}

/// How many titles the tags named `name` list, over all such tags.
pub open spec fn titles_listed(tags: Seq<OrgTagView>, name: Seq<char>) -> nat
    decreases tags.len(),
{
    if tags.len() == 0 {
        0
    } else {
        titles_listed(tags.drop_last(), name) + if tags.last().name == name {
            tags.last().files.len()
        } else {
            0nat
        }
    }
}

/// The names of the tags.
pub open spec fn tag_names(tags: Seq<OrgTagView>) -> Seq<Seq<char>> {
    tags.map_values(|t: OrgTagView| t.name)
}

/// No note carries a tag yet.
pub open spec fn untagged(files: Seq<OrgFileView>) -> bool {
    forall|k: int| 0 <= k < files.len() ==> #[trigger] files[k].tags.len() == 0
}

/// What reading the tags keeps true: tag names are distinct, every tag lists
/// at least one title, and each tag lists as many titles as the notes carry
/// it.
pub open spec fn tags_agree(files: Seq<OrgFileView>, tags: Seq<OrgTagView>) -> bool {
    &&& all_distinct(tag_names(tags))
    &&& forall|g: int| 0 <= g < tags.len() ==> #[trigger] tags[g].files.len() >= 1
    &&& forall|name: Seq<char>| #[trigger] titles_listed(tags, name) == tag_occurrences(files, name)
}

proof fn lemma_no_occurrences(files: Seq<OrgFileView>, name: Seq<char>)
    requires
        untagged(files),
    ensures
        tag_occurrences(files, name) == 0,
    decreases files.len(),
{
    if files.len() > 0 {
        assert(files.last().tags.len() == 0);
        assert(untagged(files.drop_last())) by {
            assert forall|k: int| 0 <= k < files.drop_last().len() implies #[trigger] files.drop_last()[k].tags.len() == 0 by {
                assert(files.drop_last()[k] == files[k]);
            }
        }
        lemma_no_occurrences(files.drop_last(), name);
    }
}

proof fn lemma_occurrences_update(files: Seq<OrgFileView>, i: int, x: OrgFileView, name: Seq<char>)
    requires
        0 <= i < files.len(),
    ensures
        tag_occurrences(files.update(i, x), name) + tag_count(files[i].tags, name)
            == tag_occurrences(files, name) + tag_count(x.tags, name),
    decreases files.len(),
{
    let u = files.update(i, x);
    if i == files.len() - 1 {
        assert(u.drop_last() =~= files.drop_last());
    } else {
        assert(u.drop_last() =~= files.drop_last().update(i, x));
        lemma_occurrences_update(files.drop_last(), i, x, name);
    }
}

proof fn lemma_titles_update(tags: Seq<OrgTagView>, g: int, x: OrgTagView, name: Seq<char>)
    requires
        0 <= g < tags.len(),
        x.name == tags[g].name,
    ensures
        titles_listed(tags.update(g, x), name) + (if tags[g].name == name { tags[g].files.len() } else { 0nat })
            == titles_listed(tags, name) + (if x.name == name { x.files.len() } else { 0nat }),
    decreases tags.len(),
{
    let u = tags.update(g, x);
    if g == tags.len() - 1 {
        assert(u.drop_last() =~= tags.drop_last());
    } else {
        assert(u.drop_last() =~= tags.drop_last().update(g, x));
        lemma_titles_update(tags.drop_last(), g, x, name);
    }
}

proof fn lemma_titles_absent(tags: Seq<OrgTagView>, name: Seq<char>)
    requires
        !has_tag_named(tags, name),
    ensures
        titles_listed(tags, name) == 0,
    decreases tags.len(),
{
    if tags.len() > 0 {
        let front = tags.drop_last();
        assert(tags[tags.len() - 1].name != name);
        assert(!has_tag_named(front, name)) by {
            if has_tag_named(front, name) {
                let g = choose|g: int| 0 <= g < front.len() && #[trigger] front[g].name == name;
                assert(tags[g].name == name);
            }
        }
        lemma_titles_absent(front, name);
    }
}

/// One tag row keeps the tags in agreement with the notes.
proof fn lemma_step_keeps_agreement(
    files: Seq<OrgFileView>,
    tags: Seq<OrgTagView>,
    path: Seq<char>,
    tag: Seq<char>,
)
    requires
        tags_agree(files, tags),
        row_resolvable(files, path),
    ensures
        tags_agree(tag_row_step(files, tags, path, tag).0, tag_row_step(files, tags, path, tag).1),
{
    let p = trimmed(path);
    let w = choose|w: int| 0 <= w < files.len() && #[trigger] files[w].path == p;
    lemma_some_first_with_path(files, p, w);
    let i = first_with_path(files, p);
    let title = files[i].title;
    let x = OrgFileView { tags: files[i].tags.push(tag), ..files[i] };
    let (new_files, new_tags) = tag_row_step(files, tags, path, tag);
    assert(new_files == files.update(i, x));
    assert(x.tags.drop_last() =~= files[i].tags);
    assert forall|name: Seq<char>| #[trigger] titles_listed(new_tags, name) == tag_occurrences(new_files, name) by {
        lemma_occurrences_update(files, i, x, name);
        assert(tag_count(x.tags, name) == tag_count(files[i].tags, name) + if tag == name { 1nat } else { 0nat });
        assert(titles_listed(tags, name) == tag_occurrences(files, name));
        if has_tag_named(tags, tag) {
            let g = choose|g: int| 0 <= g < tags.len() && #[trigger] tags[g].name == tag;
            lemma_first_named_some(tags, tag, g);
            let fg = first_named(tags, tag);
            let y = OrgTagView { files: tags[fg].files.push(title), ..tags[fg] };
            lemma_titles_update(tags, fg, y, name);
        } else {
            let y = OrgTagView { name: tag, files: seq![title] };
            assert(new_tags.drop_last() =~= tags);
            assert(new_tags.last() == y);
            if name == tag {
                lemma_titles_absent(tags, name);
            }
        }
    }
    if has_tag_named(tags, tag) {
        let g = choose|g: int| 0 <= g < tags.len() && #[trigger] tags[g].name == tag;
        lemma_first_named_some(tags, tag, g);
        let fg = first_named(tags, tag);
        assert(tag_names(new_tags) =~= tag_names(tags));
        assert forall|k: int| 0 <= k < new_tags.len() implies #[trigger] new_tags[k].files.len() >= 1 by {
            if k != fg {
                assert(new_tags[k] == tags[k]);
            }
        }
    } else {
        assert(tag_names(new_tags) =~= tag_names(tags).push(tag));
        assert forall|a: int, b: int| 0 <= a < b < tag_names(new_tags).len() implies tag_names(new_tags)[a] != tag_names(new_tags)[b] by {
            if b == tags.len() {
                assert(tags[a].name != tag);
            } else {
                assert(tag_names(tags)[a] != tag_names(tags)[b]);
            }
        }
        assert forall|k: int| 0 <= k < new_tags.len() implies #[trigger] new_tags[k].files.len() >= 1 by {
            if k < tags.len() {
                assert(new_tags[k] == tags[k]);
            }
        }
    }
}

/// Where some tag is named `name`, a first one is.
proof fn lemma_first_named_some(tags: Seq<OrgTagView>, name: Seq<char>, w: int)
    requires
        0 <= w < tags.len(),
        tags[w].name == name,
    ensures
        is_first_named(tags, name, first_named(tags, name)),
    decreases w,
{
    if exists|j: int| 0 <= j < w && tags[j].name == name {
        let j = choose|j: int| 0 <= j < w && tags[j].name == name;
        lemma_first_named_some(tags, name, j);
    } else {
        assert(is_first_named(tags, name, w));
    }
}

/// Reading the tags into untagged notes lists each tag once, with at least
/// one title, and with as many titles as the notes carry that tag.
pub proof fn lemma_read_tags_agree(files: Seq<OrgFileView>, rows: Seq<(Seq<char>, Seq<char>)>)
    requires
        untagged(files),
        rows_resolvable(files, rows),
    ensures
        tags_agree(read_tags_spec(files, rows).0, read_tags_spec(files, rows).1),
    decreases rows.len(),
{
    if rows.len() == 0 {
        assert forall|name: Seq<char>| #[trigger] titles_listed(Seq::<OrgTagView>::empty(), name) == tag_occurrences(files, name) by {
            lemma_no_occurrences(files, name);
        }
    } else {
        let front = rows.drop_last();
        assert(rows_resolvable(files, front)) by {
            assert forall|k: int| 0 <= k < front.len() implies row_resolvable(files, #[trigger] front[k].0) by {
                assert(front[k] == rows[k]);
            }
        }
        lemma_read_tags_agree(files, front);
        lemma_read_tags_keeps_paths(files, front);
        let (f, t) = read_tags_spec(files, front);
        let path = rows.last().0;
        assert(row_resolvable(files, rows[rows.len() - 1].0));
        let w = choose|w: int| 0 <= w < files.len() && #[trigger] files[w].path == trimmed(path);
        assert(f[w].path == files[w].path);
        assert(row_resolvable(f, path));
        lemma_step_keeps_agreement(f, t, path, rows.last().1);
    }
}

proof fn lemma_titles_at_least(tags: Seq<OrgTagView>, g: int, name: Seq<char>)
    requires
        0 <= g < tags.len(),
        tags[g].name == name,
    ensures
        titles_listed(tags, name) >= tags[g].files.len(),
    decreases tags.len(),
{
    if g < tags.len() - 1 {
        assert(tags.drop_last()[g] == tags[g]);
        lemma_titles_at_least(tags.drop_last(), g, name);
    }
}

proof fn lemma_count_witness(tags: Seq<Seq<char>>, name: Seq<char>)
    requires
        tag_count(tags, name) > 0,
    ensures
        exists|j: int| 0 <= j < tags.len() && tags[j] == name,
    decreases tags.len(),
{
    if tags.last() != name {
        lemma_count_witness(tags.drop_last(), name);
        let j = choose|j: int| 0 <= j < tags.drop_last().len() && tags.drop_last()[j] == name;
        assert(tags[j] == name);
    }
}

proof fn lemma_count_positive(tags: Seq<Seq<char>>, j: int, name: Seq<char>)
    requires
        0 <= j < tags.len(),
        tags[j] == name,
    ensures
        tag_count(tags, name) > 0,
    decreases tags.len(),
{
    if j < tags.len() - 1 {
        assert(tags.drop_last()[j] == name);
        lemma_count_positive(tags.drop_last(), j, name);
    }
}

proof fn lemma_occurrence_witness(files: Seq<OrgFileView>, name: Seq<char>)
    requires
        tag_occurrences(files, name) > 0,
    ensures
        exists|i: int, j: int| 0 <= i < files.len() && 0 <= j < files[i].tags.len() && #[trigger] files[i].tags[j] == name,
    decreases files.len(),
{
    if tag_count(files.last().tags, name) > 0 {
        lemma_count_witness(files.last().tags, name);
        let j = choose|j: int| 0 <= j < files.last().tags.len() && files.last().tags[j] == name;
        assert(files[files.len() - 1].tags[j] == name);
    } else {
        lemma_occurrence_witness(files.drop_last(), name);
        let (i, j) = choose|i: int, j: int| 0 <= i < files.drop_last().len() && 0 <= j < files.drop_last()[i].tags.len() && #[trigger] files.drop_last()[i].tags[j] == name;
        assert(files[i].tags[j] == name);
    }
}

proof fn lemma_occurrences_positive(files: Seq<OrgFileView>, i: int, name: Seq<char>)
    requires
        0 <= i < files.len(),
        tag_count(files[i].tags, name) > 0,
    ensures
        tag_occurrences(files, name) > 0,
    decreases files.len(),
{
    if i < files.len() - 1 {
        assert(files.drop_last()[i] == files[i]);
        lemma_occurrences_positive(files.drop_last(), i, name);
    }
}

/// A tag-note pair comes from a note that carries the tag.
proof fn lemma_pair_source(files: Seq<OrgFileView>, m: int)
    requires
        0 <= m < tag_file_pairs(files).len(),
    ensures
        tag_occurrences(files, tag_file_pairs(files)[m].0) > 0,
    decreases files.len(),
{
    let front = files.drop_last();
    let chunk = tagged_with(files.last(), files.last().tags);
    assert(tag_file_pairs(files) == tag_file_pairs(front) + chunk);
    let name = tag_file_pairs(files)[m].0;
    if m < tag_file_pairs(front).len() {
        assert(tag_file_pairs(files)[m] == tag_file_pairs(front)[m]);
        lemma_pair_source(front, m);
    } else {
        let j: int = m - tag_file_pairs(front).len();
        assert(chunk[j] == tag_file_pairs(files)[m]);
        assert(files.last().tags[j] == name);
        lemma_count_positive(files.last().tags, j, name);
    }
}

/// After reading the tags into untagged notes, the tags that get a tag page
/// are exactly the tags under which the All Tags page groups notes.
pub proof fn lemma_tag_pages_match_all_tags(
    files: Seq<OrgFileView>,
    rows: Seq<(Seq<char>, Seq<char>)>,
    name: Seq<char>,
)
    requires
        untagged(files),
        rows_resolvable(files, rows),
    ensures
        has_tag_named(read_tags_spec(files, rows).1, name)
            <==> keys_of(files_by_tag(read_tags_spec(files, rows).0)).contains(name),
{
    let (f, t) = read_tags_spec(files, rows);
    lemma_read_tags_agree(files, rows);
    assert(titles_listed(t, name) == tag_occurrences(f, name));
    let pairs = tag_file_pairs(f);
    let groups = files_by_tag(f);
    assert(keys_of(groups) =~= first_seen(keys_of(pairs)));
    lemma_first_seen_contains(keys_of(pairs), name);
    if has_tag_named(t, name) {
        let g = choose|g: int| 0 <= g < t.len() && #[trigger] t[g].name == name;
        lemma_titles_at_least(t, g, name);
        lemma_occurrence_witness(f, name);
        let (i, j) = choose|i: int, j: int| 0 <= i < f.len() && 0 <= j < f[i].tags.len() && #[trigger] f[i].tags[j] == name;
        lemma_files_by_tag(f, i, j);
        let k = choose|k: int| 0 <= k < groups.len() && #[trigger] groups[k].0 == f[i].tags[j] && groups[k].1.contains(f[i]);
        assert(keys_of(groups)[k] == name);
    }
    if keys_of(groups).contains(name) {
        let m = choose|m: int| 0 <= m < keys_of(pairs).len() && keys_of(pairs)[m] == name;
        lemma_pair_source(f, m);
        if !has_tag_named(t, name) {
            lemma_titles_absent(t, name);
        }
    }
}

} // verus!
