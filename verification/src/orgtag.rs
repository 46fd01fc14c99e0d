use vstd::prelude::*;
use crate::dates::{UNIX_EPOCH_DAY, Timestamp, day_number, in_calendar_range, day_number_in_utc, today_in_utc, is_in_calendar_range, MIN_DAY_NUMBER, MAX_DAY_NUMBER};
use crate::helpers::{can_trim, trimmed, trim_start_end_char};
use crate::org::{EventView, ElementView, ElementKind, OrgEvent, orgize_events, events_view, org_events};
use crate::grouping::{lemma_pair_in_group, lemma_first_seen_contains, groups_of, lemma_groups_push_known, lemma_groups_push_new, first_seen, keys_of, items_with_key, lemma_first_seen_distinct, lemma_push_pair};
use crate::sorting::{is_stable_sort, sorts_stably, int_keys, stable_sort_by_keys};
use crate::text::{has_prefix, has_suffix, without_prefix, starts_with, ends_with, strip_prefix};

verus! {

/// The strings as character sequences.
pub open spec fn strings_view(v: Seq<String>) -> Seq<Seq<char>> {
    v.map_values(|s: String| s@)
}

/// A copy of `v`.
pub fn clone_strings(v: &Vec<String>) -> (r: Vec<String>)
    ensures
        strings_view(r@) == strings_view(v@),
{
    let mut r: Vec<String> = Vec::new();
    let mut i: usize = 0;
    while i < v.len()
        invariant
            0 <= i <= v@.len(),
            r@.len() == i,
            forall|k: int| 0 <= k < i ==> #[trigger] r@[k]@ == v@[k]@,
        decreases v@.len() - i,
    {
        r.push(v[i].clone());
        i = i + 1;
    }
    assert(strings_view(r@) =~= strings_view(v@));
    r
}

/// One org-roam note: its title, file, node id and tags, the text of the
/// file, the org files that it links to, and when the file was last modified.
#[derive(Debug)]
pub struct OrgFile {
    pub title: String,
    pub path: String,
    pub id: String,
    pub tags: Vec<String>,
    pub raw_file: String,
    pub referenced_file_paths: Vec<String>,
    pub modified: Timestamp,
}

/// An `OrgFile` with its texts as character sequences.
pub struct OrgFileView {
    pub title: Seq<char>,
    pub path: Seq<char>,
    pub id: Seq<char>,
    pub tags: Seq<Seq<char>>,
    pub raw_file: Seq<char>,
    pub referenced_file_paths: Seq<Seq<char>>,
    pub modified: Timestamp,
}

impl View for OrgFile {
    type V = OrgFileView;

    open spec fn view(&self) -> OrgFileView {
        OrgFileView {
            title: self.title@,
            path: self.path@,
            id: self.id@,
            tags: strings_view(self.tags@),
            raw_file: self.raw_file@,
            referenced_file_paths: strings_view(self.referenced_file_paths@),
            modified: self.modified,
        }
    }
}

/// The files as views.
pub open spec fn files_view(v: Seq<OrgFile>) -> Seq<OrgFileView> {
    v.map_values(|f: OrgFile| f@)
}

/// A link destination that names an org file: `file:...org`.
pub open spec fn is_org_file_link(path: Seq<char>) -> bool {
    has_prefix(path, "file:"@) && has_suffix(path, ".org"@)
}

/// The org files that a document links to, in document order: the
/// destinations of its `file:...org` links, without the `file:`.
pub open spec fn org_file_references(events: Seq<EventView>) -> Seq<Seq<char>>
    decreases events.len(),
{
    if events.len() == 0 {
        Seq::empty()
    } else {
        let rest = org_file_references(events.drop_last());
        match events.last() {
            EventView::Start(ElementView::Link(p)) => if is_org_file_link(p) {
                rest.push(without_prefix(p, "file:"@))
            } else {
                rest
            },
            _ => rest,
        }
    }
}

/// How many days before day `today` the file was last modified (in UTC).
pub open spec fn days_ago(f: OrgFileView, today: int) -> int {
    today - day_number(f.modified)
}

/// The file `title`, at `path`, of node `id`, with `tags`, read as
/// `raw_file` and last modified at `modified`: title, path and id lose the
/// quotes that the database keeps around them.
pub open spec fn new_file_view(
    title: Seq<char>,
    path: Seq<char>,
    id: Seq<char>,
    tags: Seq<Seq<char>>,
    raw_file: Seq<char>,
    modified: Timestamp,
) -> OrgFileView {
    OrgFileView {
        title: trimmed(title),
        path: trimmed(path),
        id: trimmed(id),
        tags,
        raw_file,
        referenced_file_paths: org_file_references(orgize_events(raw_file)),
        modified,
    }
}

/// A link destination is a link to an org file.
pub fn is_orgfile_path(file: &str) -> (r: bool)
    ensures
        r == is_org_file_link(file@),
{
    starts_with(file, "file:") && ends_with(file, ".org")
}

impl OrgFile {
    /// A copy of the file.
    pub fn duplicate(&self) -> (r: OrgFile)
        ensures
            r@ == self@,
    {
        OrgFile {
            title: self.title.clone(),
            path: self.path.clone(),
            id: self.id.clone(),
            tags: clone_strings(&self.tags),
            raw_file: self.raw_file.clone(),
            referenced_file_paths: clone_strings(&self.referenced_file_paths),
            modified: self.modified,
        }
    }

    /// Adds `tag` to the tags of the file.
    pub fn add_tag(self: &mut OrgFile, tag: &str)
        ensures
            final(self)@ == (OrgFileView { tags: old(self)@.tags.push(tag@), ..old(self)@ }),
    {
        let ghost before = self.tags@;
        self.tags.push(String::from_str(tag));
        proof {
            assert(strings_view(self.tags@) =~= strings_view(before).push(tag@));
        }
    }

    /// The org files that the org document `raw_file` links to, as
    /// `orgize` parses it: each `file:...org` link, without `file:`.
    pub fn referenced_file_paths(raw_file: &str) -> (r: Vec<String>)
        ensures
            strings_view(r@) == org_file_references(orgize_events(raw_file@)),
    {
        let events = org_events(raw_file);
        let ghost ev = events_view(events@);
        let mut paths: Vec<String> = Vec::new();
        let mut i: usize = 0;
        while i < events.len()
            invariant
                0 <= i <= events@.len(),
                ev == events_view(events@),
                ev.len() == events@.len(),
                strings_view(paths@) == org_file_references(ev.subrange(0, i as int)),
            decreases events@.len() - i,
        {
            let ghost before = strings_view(paths@);
            let ghost pre = ev.subrange(0, i + 1);
            assert(pre.drop_last() =~= ev.subrange(0, i as int));
            assert(pre.last() == events@[i as int]@);
            match &events[i] {
                OrgEvent::Start(ElementKind::Link(p)) => {
                    if is_orgfile_path(p.as_str()) {
                        match strip_prefix(p.as_str(), "file:") {
                            Some(stripped) => {
                                paths.push(stripped);
                                assert(strings_view(paths@) =~= before.push(stripped@));
                            },
                            None => {},
                        }
                    }
                },
                _ => {},
            }
            i = i + 1;
        }
        assert(ev.subrange(0, ev.len() as int) =~= ev);
        paths
    }

    /// The file `title` at `path`, with node `id` and `tags`, whose text is
    /// `raw_file` and which was last modified at `modified`. Title, path and
    /// id come from the database and lose their first and last character.
    pub fn new(
        title: String,
        path: String,
        id: String,
        tags: Vec<String>,
        raw_file: String,
        modified: Timestamp,
    ) -> (r: OrgFile)
        requires
            can_trim(title@),
            can_trim(path@),
            can_trim(id@),
        ensures
            r@ == new_file_view(title@, path@, id@, strings_view(tags@), raw_file@, modified),
            r@.title == title@.subrange(1, title@.len() - 1),
            r@.path == path@.subrange(1, path@.len() - 1),
            r@.id == id@.subrange(1, id@.len() - 1),
            r@.tags == strings_view(tags@),
            r@.raw_file == raw_file@,
            r@.referenced_file_paths == org_file_references(orgize_events(raw_file@)),
            r.modified == modified,
    {
        let path = trim_start_end_char(path.as_str());
        let title = trim_start_end_char(title.as_str());
        let id = trim_start_end_char(id.as_str());
        let referenced_file_paths = OrgFile::referenced_file_paths(raw_file.as_str());
        OrgFile { title, path, id, raw_file, tags, referenced_file_paths, modified }
    }

    /// chrono can hold the time at which the file was last modified.
    pub fn modified_in_range(self: &OrgFile) -> (r: bool)
        ensures
            r == in_calendar_range(self.modified),
    {
        is_in_calendar_range(self.modified)
    }

    /// How many days before day `today` the file was last modified.
    pub fn days_ago_on(self: &OrgFile, today: i32) -> (r: i32)
        requires
            in_calendar_range(self.modified),
            MIN_DAY_NUMBER <= today <= MAX_DAY_NUMBER,
        ensures
            r == days_ago(self@, today as int),
    {
        let modified: i32 = day_number_in_utc(self.modified);
        today - modified
    }

    /// How many days ago, by the clock, the file was last modified; `None`
    /// where the clock reads before 1970 or beyond chrono's calendar.
    pub fn modified_days_ago(self: &OrgFile) -> (r: Option<i32>)
        requires
            in_calendar_range(self.modified),
        ensures
            r matches Some(d) ==> exists|today: int|
                UNIX_EPOCH_DAY <= today <= MAX_DAY_NUMBER && d == days_ago(self@, today),
    {
        match today_in_utc() {
            Some(today) => Some(self.days_ago_on(today)),
            None => None,
        }
    }
}

/// A tag and the titles of the files that carry it.
#[derive(Debug)]
pub struct OrgTag {
    pub name: String,
    pub files: Vec<String>,
}

/// An `OrgTag` with its texts as character sequences.
pub struct OrgTagView {
    pub name: Seq<char>,
    pub files: Seq<Seq<char>>,
}

impl View for OrgTag {
    type V = OrgTagView;

    open spec fn view(&self) -> OrgTagView {
        OrgTagView { name: self.name@, files: strings_view(self.files@) }
    }
}

/// The tags as views.
pub open spec fn tags_view(v: Seq<OrgTag>) -> Seq<OrgTagView> {
    v.map_values(|t: OrgTag| t@)
}

/// Where the site is written.
pub const EXPORT_PATH: &'static str = "/Users/raheel/Projects/served/wiki/";

/// Where the org-roam notes are.
pub const ORG_ROAM_PATH: &'static str = "/Users/raheel/orgs/roam";

impl OrgTag {
    /// Adds the title `p` to the files of the tag.
    pub fn add_path(self: &mut OrgTag, p: String)
        ensures
            final(self)@ == (OrgTagView { files: old(self)@.files.push(p@), ..old(self)@ }),
    {
        let ghost before = self.files@;
        self.files.push(p);
        proof {
            assert(strings_view(self.files@) =~= strings_view(before).push(p@));
        }
    }

    /// The file that the page of the tag is written to:
    /// `<export path>tag-<name>.html`.
    pub fn output_path(self: &OrgTag) -> (r: String)
        ensures
            r@ == EXPORT_PATH@ + "tag-"@ + self.name@ + ".html"@,
    {
        let mut path = Wiki::base_export_path();
        path.append("tag-");
        path.append(self.name.as_str());
        path.append(".html");
        path
    }
}

/// All notes, and all tags with the titles of their notes.
pub struct Wiki {
    pub files: Vec<OrgFile>,
    pub tags: Vec<OrgTag>,
}

impl Default for Wiki {
    fn default() -> (r: Wiki)
        ensures
            r.files@.len() == 0,
            r.tags@.len() == 0,
    {
        Wiki { files: Vec::new(), tags: Vec::new() }
    }
}

impl Wiki {
    /// Where the site is written.
    pub fn base_export_path() -> (r: String)
        ensures
            r@ == EXPORT_PATH@,
    {
        String::from_str(EXPORT_PATH)
    }

    /// Where the org-roam notes are.
    pub fn base_org_roam_path() -> (r: String)
        ensures
            r@ == ORG_ROAM_PATH@,
    {
        String::from_str(ORG_ROAM_PATH)
    }
}

/// Every (tag, file) pair of the notes: each note in order, with each of its
/// tags in order.
pub open spec fn tag_file_pairs(files: Seq<OrgFileView>) -> Seq<(Seq<char>, OrgFileView)>
    decreases files.len(),
{
    if files.len() == 0 {
        Seq::empty()
    } else {
        tag_file_pairs(files.drop_last()) + tagged_with(files.last(), files.last().tags)
    }
}

/// The pairs of `f` with each of `tags`.
pub open spec fn tagged_with(f: OrgFileView, tags: Seq<Seq<char>>) -> Seq<(Seq<char>, OrgFileView)> {
    tags.map_values(|t: Seq<char>| (t, f))
}

/// Each tag of the notes, in order of first appearance, with the notes that
/// carry it (a note once for each time it carries the tag).
pub open spec fn files_by_tag(files: Seq<OrgFileView>) -> Seq<(Seq<char>, Seq<OrgFileView>)> {
    groups_of(tag_file_pairs(files))
}

/// A tag and the notes that carry it.
pub struct FilesForTag {
    pub tag_name: String,
    pub files: Vec<OrgFile>,
}

/// A `FilesForTag` as its tag and the views of its notes.
pub open spec fn tag_group_view(g: FilesForTag) -> (Seq<char>, Seq<OrgFileView>) {
    (g.tag_name@, files_view(g.files@))
}

/// The groups as views.
pub open spec fn tag_groups_view(v: Seq<FilesForTag>) -> Seq<(Seq<char>, Seq<OrgFileView>)> {
    v.map_values(|g: FilesForTag| tag_group_view(g))
}

/// The first group of `groups` named `tag`.
fn find_tag_group(groups: &Vec<FilesForTag>, tag: &String) -> (r: Option<usize>)
    ensures
        r matches Some(g) ==> g < groups@.len() && groups@[g as int].tag_name@ == tag@,
        r is None ==> forall|k: int| 0 <= k < groups@.len() ==> groups@[k].tag_name@ != tag@,
{
    let mut k: usize = 0;
    while k < groups.len()
        invariant
            0 <= k <= groups@.len(),
            forall|j: int| 0 <= j < k ==> groups@[j].tag_name@ != tag@,
        decreases groups@.len() - k,
    {
        if groups[k].tag_name == *tag {
            return Some(k);
        }
        k = k + 1;
    }
    None
}

impl FilesForTag {
    /// Groups the notes of `wiki` by tag: one group per tag, in order of first
    /// appearance, holding (copies of) the notes that carry the tag, in order.
    pub fn build(wiki: &Wiki) -> (r: Vec<FilesForTag>)
        ensures
            tag_groups_view(r@) == files_by_tag(files_view(wiki.files@)),
    {
        let ghost fv = files_view(wiki.files@);
        let mut result: Vec<FilesForTag> = Vec::new();
        let mut i: usize = 0;
        assert(tag_groups_view(result@) =~= groups_of(tag_file_pairs(fv.subrange(0, 0))));
        while i < wiki.files.len()
            invariant
                fv == files_view(wiki.files@),
                fv.len() == wiki.files@.len(),
                0 <= i <= fv.len(),
                tag_groups_view(result@) == groups_of(tag_file_pairs(fv.subrange(0, i as int))),
            decreases fv.len() - i,
        {
            let file = &wiki.files[i];
            let ghost f = fv[i as int];
            let ghost base = tag_file_pairs(fv.subrange(0, i as int));
            assert(f == file@);
            assert(base + tagged_with(f, f.tags.subrange(0, 0)) =~= base);
            let mut j: usize = 0;
            while j < file.tags.len()
                invariant
                    f == file@,
                    f.tags.len() == file.tags@.len(),
                    0 <= j <= f.tags.len(),
                    tag_groups_view(result@) == groups_of(base + tagged_with(f, f.tags.subrange(0, j as int))),
                decreases f.tags.len() - j,
            {
                let tag = &file.tags[j];
                let ghost done = base + tagged_with(f, f.tags.subrange(0, j as int));
                let ghost p = (tag@, f);
                assert(f.tags[j as int] == tag@);
                assert(base + tagged_with(f, f.tags.subrange(0, j + 1)) =~= done.push(p));
                let ghost before = tag_groups_view(result@);
                match find_tag_group(&result, tag) {
                    Some(g) => {
                        proof {
                            assert(before[g as int].0 == tag@);
                            lemma_groups_push_known(done, p, g as int);
                        }
                        let mut group = result.remove(g);
                        let ghost group_files = group.files@;
                        group.files.push(file.duplicate());
                        proof {
                            assert(files_view(group.files@) =~= files_view(group_files).push(f));
                        }
                        result.insert(g, group);
                        proof {
                            assert(tag_groups_view(result@) =~= before.update(g as int, (p.0, before[g as int].1.push(f))));
                        }
                    },
                    None => {
                        proof {
                            assert forall|k: int| 0 <= k < groups_of(done).len() implies groups_of(done)[k].0 != p.0 by {
                                assert(before[k].0 == result@[k].tag_name@);
                            }
                            lemma_groups_push_new(done, p);
                        }
                        let mut files: Vec<OrgFile> = Vec::new();
                        files.push(file.duplicate());
                        let group = FilesForTag { tag_name: tag.clone(), files };
                        proof {
                            assert(files_view(group.files@) =~= seq![f]);
                        }
                        result.push(group);
                        proof {
                            assert(tag_groups_view(result@) =~= before.push((p.0, seq![f])));
                        }
                    },
                }
                j = j + 1;
            }
            proof {
                assert(f.tags.subrange(0, f.tags.len() as int) =~= f.tags);
                let next = fv.subrange(0, i + 1);
                assert(next.drop_last() =~= fv.subrange(0, i as int));
                assert(next.last() == f);
                assert(tag_file_pairs(next) == base + tagged_with(f, f.tags));
            }
            i = i + 1;
        }
        assert(fv.subrange(0, fv.len() as int) =~= fv);
        result
    }
}

/// chrono can hold the modification time of every note.
pub open spec fn all_in_calendar_range(files: Seq<OrgFileView>) -> bool {
    forall|k: int| 0 <= k < files.len() ==> in_calendar_range(#[trigger] files[k].modified)
}

/// For each note, how many days before day `today` it was last modified.
pub open spec fn days_ago_keys(files: Seq<OrgFileView>, today: int) -> Seq<int> {
    files.map_values(|f: OrgFileView| days_ago(f, today))
}

/// A stable sort of files carries over to their views.
pub proof fn lemma_sort_of_views(out: Seq<OrgFile>, inp: Seq<OrgFile>, keys: Seq<int>)
    requires
        is_stable_sort(out, inp, keys),
    ensures
        is_stable_sort(files_view(out), files_view(inp), keys),
{
    let perm = choose|perm: Seq<int>| sorts_stably(out, inp, keys, perm);
    assert(sorts_stably(files_view(out), files_view(inp), keys, perm));
}

/// Copies of the files.
pub fn clone_files(v: &Vec<OrgFile>) -> (r: Vec<OrgFile>)
    ensures
        files_view(r@) == files_view(v@),
{
    let mut r: Vec<OrgFile> = Vec::new();
    let mut i: usize = 0;
    while i < v.len()
        invariant
            0 <= i <= v@.len(),
            r@.len() == i,
            forall|k: int| 0 <= k < i ==> #[trigger] r@[k]@ == v@[k]@,
        decreases v@.len() - i,
    {
        r.push(v[i].duplicate());
        i = i + 1;
    }
    assert(files_view(r@) =~= files_view(v@));
    r
}

/// `out` is `files` ordered by days since last modification, counted on
/// some day from January 1, 1970 to the end of chrono's calendar.
pub open spec fn sorted_by_age_on_some_day(out: Seq<OrgFileView>, files: Seq<OrgFileView>) -> bool {
    exists|today: int|
        UNIX_EPOCH_DAY <= today <= MAX_DAY_NUMBER && #[trigger] is_stable_sort(out, files, days_ago_keys(files, today))
}

/// Fewer than two notes are in order under any keys.
pub proof fn lemma_short_is_sorted(files: Seq<OrgFileView>, keys: Seq<int>)
    requires
        files.len() < 2,
        keys.len() == files.len(),
    ensures
        is_stable_sort(files, files, keys),
{
    let perm = Seq::new(files.len(), |k: int| k);
    assert(sorts_stably(files, files, keys, perm));
}

/// The notes, most recently modified first.
pub struct FilesSorted {
    pub files: Vec<OrgFile>,
}

impl FilesSorted {
    /// (Copies of) the notes of `wiki` ordered by how many days before day
    /// `today` they were last modified, fewest first; notes of the same day
    /// keep their order.
    pub fn build_on(wiki: &Wiki, today: i32) -> (r: FilesSorted)
        requires
            wiki.files@.len() >= 2 ==> all_in_calendar_range(files_view(wiki.files@)),
            MIN_DAY_NUMBER <= today <= MAX_DAY_NUMBER,
        ensures
            is_stable_sort(
                files_view(r.files@),
                files_view(wiki.files@),
                days_ago_keys(files_view(wiki.files@), today as int),
            ),
    {
        let ghost fv = files_view(wiki.files@);
        let files = clone_files(&wiki.files);
        if files.len() < 2 {
            // a single note is in order whatever its time
            proof {
                lemma_short_is_sorted(fv, days_ago_keys(fv, today as int));
            }
            return FilesSorted { files };
        }
        let mut keys: Vec<i128> = Vec::new();
        let mut i: usize = 0;
        while i < files.len()
            invariant
                fv == files_view(wiki.files@),
                fv.len() >= 2,
                files_view(files@) == fv,
                all_in_calendar_range(fv),
                MIN_DAY_NUMBER <= today <= MAX_DAY_NUMBER,
                0 <= i <= files@.len(),
                keys@.len() == i,
                forall|k: int| 0 <= k < i ==> #[trigger] keys@[k] == days_ago(fv[k], today as int),
            decreases files@.len() - i,
        {
            assert(fv[i as int] == files@[i as int]@);
            assert(in_calendar_range(fv[i as int].modified));
            let d: i32 = files[i].days_ago_on(today);
            keys.push(d as i128);
            i = i + 1;
        }
        proof {
            assert(int_keys(keys@) =~= days_ago_keys(fv, today as int));
        }
        let ghost unsorted = files@;
        let sorted = stable_sort_by_keys(files, &keys);
        proof {
            lemma_sort_of_views(sorted@, unsorted, int_keys(keys@));
        }
        FilesSorted { files: sorted }
    }

    /// The notes of `wiki` ordered by age as of the clock's day `day`
    /// (`None` where the clock could not be read in range): fewer than two
    /// notes come back as they are, whatever the clock; otherwise the order is
    /// that of `build_on` for that day, and there is no result without a day.
    pub fn build_for_day(wiki: &Wiki, day: Option<i32>) -> (r: Option<FilesSorted>)
        requires
            wiki.files@.len() >= 2 ==> all_in_calendar_range(files_view(wiki.files@)),
            day matches Some(d) ==> UNIX_EPOCH_DAY <= d <= MAX_DAY_NUMBER,
        ensures
            r is None <==> (wiki.files@.len() >= 2 && day is None),
            wiki.files@.len() < 2 ==> (r matches Some(s) && files_view(s.files@) == files_view(wiki.files@)),
            day matches Some(d) ==> (r matches Some(s) && is_stable_sort(
                files_view(s.files@),
                files_view(wiki.files@),
                days_ago_keys(files_view(wiki.files@), d as int),
            )),
            r matches Some(s) ==> sorted_by_age_on_some_day(files_view(s.files@), files_view(wiki.files@)),
    {
        if wiki.files.len() < 2 {
            let files = clone_files(&wiki.files);
            proof {
                let fv = files_view(wiki.files@);
                if let Some(d) = day {
                    lemma_short_is_sorted(fv, days_ago_keys(fv, d as int));
                }
                lemma_short_is_sorted(fv, days_ago_keys(fv, UNIX_EPOCH_DAY as int));
                assert(sorted_by_age_on_some_day(files_view(files@), fv));
            }
            return Some(FilesSorted { files });
        }
        match day {
            Some(today) => {
                let sorted = FilesSorted::build_on(wiki, today);
                assert(is_stable_sort(
                    files_view(sorted.files@),
                    files_view(wiki.files@),
                    days_ago_keys(files_view(wiki.files@), today as int),
                ));
                assert(sorted_by_age_on_some_day(files_view(sorted.files@), files_view(wiki.files@)));
                Some(sorted)
            },
            None => None,
        }
    }

    /// (Copies of) the notes of `wiki` ordered by how many days ago, by the
    /// clock, they were last modified, fewest first; notes of the same day
    /// keep their order. `None` where the clock reads before 1970 or beyond
    /// chrono's calendar.
    pub fn build(wiki: &Wiki) -> (r: Option<FilesSorted>)
        requires
            wiki.files@.len() >= 2 ==> all_in_calendar_range(files_view(wiki.files@)),
        ensures
            r matches Some(s) ==> sorted_by_age_on_some_day(files_view(s.files@), files_view(wiki.files@)),
            wiki.files@.len() < 2 ==> (r matches Some(s) && files_view(s.files@) == files_view(wiki.files@)),
            r is None ==> wiki.files@.len() >= 2,
    {
        if wiki.files.len() < 2 {
            // fewer than two notes are in order without reading the clock
            let files = clone_files(&wiki.files);
            proof {
                let fv = files_view(wiki.files@);
                let today = UNIX_EPOCH_DAY as int;
                lemma_short_is_sorted(fv, days_ago_keys(fv, today));
                assert(is_stable_sort(fv, fv, days_ago_keys(fv, today)));
                assert(sorted_by_age_on_some_day(fv, fv));
            }
            return Some(FilesSorted { files });
        }
        FilesSorted::build_for_day(wiki, today_in_utc())
    }
}

/// Each note paired with the number of days, less one, between its last
/// modification and day `today`.
pub open spec fn weeks_away_pairs(files: Seq<OrgFileView>, today: int) -> Seq<(int, OrgFileView)> {
    files.map_values(|f: OrgFileView| (days_ago(f, today) - 1, f))
}

/// `groups` holds, in increasing order of key, one group per key of `pairs`,
/// each with the items of its key in order.
pub open spec fn sorted_groups_of(groups: Seq<(int, Seq<OrgFileView>)>, pairs: Seq<(int, OrgFileView)>) -> bool {
    &&& forall|a: int, b: int| 0 <= a < b < groups.len() ==> groups[a].0 < groups[b].0
    &&& forall|k: int| 0 <= k < groups.len() ==> keys_of(pairs).contains(#[trigger] groups[k].0)
    &&& forall|x: int| #[trigger] keys_of(pairs).contains(x) ==> has_group(groups, x)
    &&& forall|k: int| 0 <= k < groups.len() ==> #[trigger] groups[k].1 == items_with_key(pairs, groups[k].0)
}

/// Some group has key `x`.
pub open spec fn has_group(groups: Seq<(int, Seq<OrgFileView>)>, x: int) -> bool {
    exists|k: int| 0 <= k < groups.len() && #[trigger] groups[k].0 == x
}

/// `groups` are `files` grouped by `weeks_away` counted on some day from
/// January 1, 1970 to the end of chrono's calendar.
pub open spec fn grouped_by_age_on_some_day(groups: Seq<(int, Seq<OrgFileView>)>, files: Seq<OrgFileView>) -> bool {
    exists|today: int|
        UNIX_EPOCH_DAY <= today <= MAX_DAY_NUMBER && #[trigger] sorted_groups_of(groups, weeks_away_pairs(files, today))
}

/// The notes of one value of `weeks_away`.
pub struct FilesByWeeksAway {
    pub files: Vec<OrgFile>,
    pub weeks_away: i32,
}

/// A `FilesByWeeksAway` as its key and the views of its notes.
pub open spec fn week_group_view(g: FilesByWeeksAway) -> (int, Seq<OrgFileView>) {
    (g.weeks_away as int, files_view(g.files@))
}

/// The groups as views.
pub open spec fn week_groups_view(v: Seq<FilesByWeeksAway>) -> Seq<(int, Seq<OrgFileView>)> {
    v.map_values(|g: FilesByWeeksAway| week_group_view(g))
}

impl FilesByWeeksAway {
    /// Groups (copies of) the notes of `wiki` by the number of days, less
    /// one, between their last modification and day `today` (`weeks_away`),
    /// in increasing order of it; each group keeps the order of the notes.
    #[verifier::rlimit(60)]
    pub fn build_on(wiki: &Wiki, today: i32) -> (r: Vec<FilesByWeeksAway>)
        requires
            all_in_calendar_range(files_view(wiki.files@)),
            MIN_DAY_NUMBER <= today <= MAX_DAY_NUMBER,
        ensures
            sorted_groups_of(week_groups_view(r@), weeks_away_pairs(files_view(wiki.files@), today as int)),
    {
        let ghost fv = files_view(wiki.files@);
        let mut result: Vec<FilesByWeeksAway> = Vec::new();
        let mut i: usize = 0;
        proof {
            let p0 = weeks_away_pairs(fv.subrange(0, 0), today as int);
            assert(p0.len() == 0);
            assert(forall|x: int| !keys_of(p0).contains(x));
        }
        while i < wiki.files.len()
            invariant
                fv == files_view(wiki.files@),
                fv.len() == wiki.files@.len(),
                all_in_calendar_range(fv),
                MIN_DAY_NUMBER <= today <= MAX_DAY_NUMBER,
                0 <= i <= fv.len(),
                sorted_groups_of(week_groups_view(result@), weeks_away_pairs(fv.subrange(0, i as int), today as int)),
            decreases fv.len() - i,
        {
            let file = &wiki.files[i];
            let ghost f = fv[i as int];
            assert(f == file@);
            assert(in_calendar_range(f.modified));
            let days: i32 = file.days_ago_on(today);
            let key: i32 = days - 1;
            let ghost pairs = weeks_away_pairs(fv.subrange(0, i as int), today as int);
            let ghost p = (key as int, f);
            let ghost next = weeks_away_pairs(fv.subrange(0, i + 1), today as int);
            assert(next =~= pairs.push(p));
            proof {
                lemma_push_pair(pairs, p);
            }
            let ghost before = week_groups_view(result@);
            let mut pos: usize = 0;
            while pos < result.len() && result[pos].weeks_away < key
                invariant
                    before == week_groups_view(result@),
                    0 <= pos <= result@.len(),
                    forall|k: int| 0 <= k < pos ==> before[k].0 < key,
                decreases result@.len() - pos,
            {
                assert(before[pos as int].0 == result@[pos as int].weeks_away);
                pos = pos + 1;
            }
            proof {
                assert forall|k: int| pos <= k < before.len() implies before[k].0 >= key by {
                    assert(before[pos as int].0 == result@[pos as int].weeks_away);
                    assert(before[pos as int].0 <= before[k].0);
                }
            }
            if pos < result.len() && result[pos].weeks_away == key {
                assert(before[pos as int].0 == key);
                let mut group = result.remove(pos);
                let ghost group_files = group.files@;
                group.files.push(file.duplicate());
                proof {
                    assert(files_view(group.files@) =~= files_view(group_files).push(f));
                }
                result.insert(pos, group);
                proof {
                    let after = week_groups_view(result@);
                    assert(after =~= before.update(pos as int, (key as int, before[pos as int].1.push(f))));
                    assert forall|k: int| 0 <= k < after.len() implies keys_of(next).contains(#[trigger] after[k].0) by {
                        assert(keys_of(pairs).contains(before[k].0));
                        let j = choose|j: int| 0 <= j < keys_of(pairs).len() && keys_of(pairs)[j] == before[k].0;
                        assert(keys_of(next)[j] == before[k].0);
                    }
                    assert forall|x: int| #[trigger] keys_of(next).contains(x) implies has_group(after, x) by {
                        let j = choose|j: int| 0 <= j < keys_of(next).len() && keys_of(next)[j] == x;
                        if x == key {
                            assert(after[pos as int].0 == x);
                        } else {
                            assert(keys_of(pairs)[j] == x);
                            assert(keys_of(pairs).contains(x));
                            assert(has_group(before, x));
                            let k = choose|k: int| 0 <= k < before.len() && #[trigger] before[k].0 == x;
                            assert(after[k].0 == x);
                        }
                    }
                    assert forall|k: int| 0 <= k < after.len() implies #[trigger] after[k].1 == items_with_key(next, after[k].0) by {
                        assert(items_with_key(next, after[k].0) == if key == after[k].0 {
                            items_with_key(pairs, after[k].0).push(f)
                        } else {
                            items_with_key(pairs, after[k].0)
                        });
                        if k != pos {
                            assert(before[k].0 != before[pos as int].0);
                        }
                    }
                }
            } else {
                proof {
                    assert forall|k: int| 0 <= k < before.len() implies before[k].0 != key by {
                        if k < pos {
                        } else if k == pos {
                        } else {
                            assert(before[pos as int].0 < before[k].0);
                        }
                    }
                    assert(!keys_of(pairs).contains(key as int)) by {
                        if keys_of(pairs).contains(key as int) {
                            assert(has_group(before, key as int));
                        }
                    }
                    crate::grouping::lemma_items_of_absent_key(pairs, key as int);
                }
                let mut files: Vec<OrgFile> = Vec::new();
                files.push(file.duplicate());
                let group = FilesByWeeksAway { files, weeks_away: key };
                proof {
                    assert(files_view(group.files@) =~= seq![f]);
                }
                result.insert(pos, group);
                proof {
                    let after = week_groups_view(result@);
                    assert(after =~= before.insert(pos as int, (key as int, seq![f])));
                    assert forall|a: int, b: int| 0 <= a < b < after.len() implies after[a].0 < after[b].0 by {
                        if b < pos {
                        } else if b == pos {
                            assert(after[a].0 == before[a].0);
                        } else if a < pos {
                            assert(after[b].0 == before[b - 1].0);
                        } else if a == pos {
                            assert(after[b].0 == before[b - 1].0);
                        } else {
                            assert(after[b].0 == before[b - 1].0);
                            assert(after[a].0 == before[a - 1].0);
                        }
                    }
                    assert forall|k: int| 0 <= k < after.len() implies keys_of(next).contains(#[trigger] after[k].0) by {
                        if k == pos {
                            assert(keys_of(next)[pairs.len() as int] == key);
                        } else {
                            let kk: int = if k < pos { k } else { k - 1 };
                            assert(after[k].0 == before[kk].0);
                            assert(keys_of(pairs).contains(before[kk].0));
                            let j = choose|j: int| 0 <= j < keys_of(pairs).len() && keys_of(pairs)[j] == before[kk].0;
                            assert(keys_of(next)[j] == before[kk].0);
                        }
                    }
                    assert forall|x: int| #[trigger] keys_of(next).contains(x) implies has_group(after, x) by {
                        let j = choose|j: int| 0 <= j < keys_of(next).len() && keys_of(next)[j] == x;
                        if x == key {
                            assert(after[pos as int].0 == x);
                        } else {
                            assert(keys_of(pairs)[j] == x);
                            assert(keys_of(pairs).contains(x));
                            assert(has_group(before, x));
                            let k = choose|k: int| 0 <= k < before.len() && #[trigger] before[k].0 == x;
                            if k < pos {
                                assert(after[k].0 == x);
                            } else {
                                assert(after[k + 1].0 == x);
                            }
                        }
                    }
                    assert forall|k: int| 0 <= k < after.len() implies #[trigger] after[k].1 == items_with_key(next, after[k].0) by {
                        assert(items_with_key(next, after[k].0) == if key == after[k].0 {
                            items_with_key(pairs, after[k].0).push(f)
                        } else {
                            items_with_key(pairs, after[k].0)
                        });
                        if k == pos {
                            assert(Seq::<OrgFileView>::empty().push(f) =~= seq![f]);
                        } else {
                            let kk: int = if k < pos { k } else { k - 1 };
                            assert(after[k] == before[kk]);
                        }
                    }
                }
            }
            i = i + 1;
        }
        assert(fv.subrange(0, fv.len() as int) =~= fv);
        result
    }

    /// The notes of `wiki` grouped by age as of the clock's day `day` (`None`
    /// where the clock could not be read in range): no note gives no group,
    /// whatever the clock; otherwise the groups are those of `build_on` for
    /// that day, and there are none without a day.
    pub fn build_for_day(wiki: &Wiki, day: Option<i32>) -> (r: Option<Vec<FilesByWeeksAway>>)
        requires
            all_in_calendar_range(files_view(wiki.files@)),
            day matches Some(d) ==> UNIX_EPOCH_DAY <= d <= MAX_DAY_NUMBER,
        ensures
            r is None <==> (wiki.files@.len() > 0 && day is None),
            wiki.files@.len() == 0 ==> (r matches Some(groups) && groups@.len() == 0),
            day matches Some(d) ==> (r matches Some(groups) && sorted_groups_of(
                week_groups_view(groups@),
                weeks_away_pairs(files_view(wiki.files@), d as int),
            )),
            r matches Some(groups) ==> grouped_by_age_on_some_day(week_groups_view(groups@), files_view(wiki.files@)),
    {
        match day {
            Some(today) => {
                let groups = FilesByWeeksAway::build_on(wiki, today);
                proof {
                    if wiki.files@.len() == 0 {
                        let pairs = weeks_away_pairs(files_view(wiki.files@), today as int);
                        let gv = week_groups_view(groups@);
                        if gv.len() > 0 {
                            assert(keys_of(pairs).contains(gv[0].0));
                        }
                        assert(groups@.len() == gv.len());
                    }
                    assert(sorted_groups_of(
                        week_groups_view(groups@),
                        weeks_away_pairs(files_view(wiki.files@), today as int),
                    ));
                    assert(grouped_by_age_on_some_day(week_groups_view(groups@), files_view(wiki.files@)));
                }
                Some(groups)
            },
            None => {
                if wiki.files.len() == 0 {
                    let groups: Vec<FilesByWeeksAway> = Vec::new();
                    proof {
                        let fv = files_view(wiki.files@);
                        let pairs = weeks_away_pairs(fv, UNIX_EPOCH_DAY as int);
                        assert(pairs.len() == 0);
                        assert(forall|x: int| !keys_of(pairs).contains(x));
                        assert(week_groups_view(groups@) =~= Seq::<(int, Seq<OrgFileView>)>::empty());
                        assert(sorted_groups_of(week_groups_view(groups@), pairs));
                        assert(grouped_by_age_on_some_day(week_groups_view(groups@), fv));
                    }
                    Some(groups)
                } else {
                    None
                }
            },
        }
    }

    /// Groups (copies of) the notes of `wiki` by the number of days, less
    /// one, between their last modification and today by the clock, in
    /// increasing order of it; each group keeps the order of the notes.
    /// `None` where the clock reads before 1970 or beyond chrono's calendar.
    pub fn build(wiki: &Wiki) -> (r: Option<Vec<FilesByWeeksAway>>)
        requires
            all_in_calendar_range(files_view(wiki.files@)),
        ensures
            r matches Some(groups) ==> grouped_by_age_on_some_day(week_groups_view(groups@), files_view(wiki.files@)),
            wiki.files@.len() == 0 ==> (r matches Some(groups) && groups@.len() == 0),
            r is None ==> wiki.files@.len() > 0,
    {
        if wiki.files.len() == 0 {
            // no note, no group, and no need of the clock
            let groups: Vec<FilesByWeeksAway> = Vec::new();
            proof {
                let fv = files_view(wiki.files@);
                let today = UNIX_EPOCH_DAY as int;
                let pairs = weeks_away_pairs(fv, today);
                assert(pairs.len() == 0);
                assert(forall|x: int| !keys_of(pairs).contains(x));
                assert(week_groups_view(groups@) =~= Seq::<(int, Seq<OrgFileView>)>::empty());
                assert(sorted_groups_of(week_groups_view(groups@), pairs));
                assert(grouped_by_age_on_some_day(week_groups_view(groups@), fv));
            }
            return Some(groups);
        }
        FilesByWeeksAway::build_for_day(wiki, today_in_utc())
    }
}

/// Every org file that a note references, put back behind `file:`, is a
/// link to an org file.
pub proof fn lemma_references_are_org_files(events: Seq<EventView>)
    ensures
        forall|k: int|
            0 <= k < org_file_references(events).len() ==> is_org_file_link(
                "file:"@ + #[trigger] org_file_references(events)[k],
            ),
    decreases events.len(),
{
    if events.len() > 0 {
        lemma_references_are_org_files(events.drop_last());
        let rest = org_file_references(events.drop_last());
        match events.last() {
            EventView::Start(ElementView::Link(p)) => {
                if is_org_file_link(p) {
                    let refs = rest.push(without_prefix(p, "file:"@));
                    assert(p.subrange(0, "file:"@.len() as int) == "file:"@);
                    assert("file:"@ + without_prefix(p, "file:"@) =~= p);
                    assert forall|k: int| 0 <= k < refs.len() implies is_org_file_link("file:"@ + #[trigger] refs[k]) by {
                        if k < rest.len() {
                            assert(refs[k] == rest[k]);
                        }
                    }
                }
            },
            _ => {},
        }
    }
}

/// The pair of note `i` with its `j`-th tag is one of the tag-note pairs.
proof fn lemma_tag_pair_present(files: Seq<OrgFileView>, i: int, j: int)
    requires
        0 <= i < files.len(),
        0 <= j < files[i].tags.len(),
    ensures
        exists|m: int| 0 <= m < tag_file_pairs(files).len() && #[trigger] tag_file_pairs(files)[m] == (files[i].tags[j], files[i]),
    decreases files.len(),
{
    let front = files.drop_last();
    let chunk = tagged_with(files.last(), files.last().tags);
    assert(tag_file_pairs(files) == tag_file_pairs(front) + chunk);
    if i == files.len() - 1 {
        let m: int = tag_file_pairs(front).len() + j;
        assert(tag_file_pairs(files)[m] == chunk[j]);
    } else {
        assert(front[i] == files[i]);
        lemma_tag_pair_present(front, i, j);
        let m = choose|m: int| 0 <= m < tag_file_pairs(front).len() && #[trigger] tag_file_pairs(front)[m] == (front[i].tags[j], front[i]);
        assert(tag_file_pairs(files)[m] == tag_file_pairs(front)[m]);
    }
}

/// The groups of the All Tags page name each tag once, and a note that
/// carries a tag is in that tag's group.
pub proof fn lemma_files_by_tag(files: Seq<OrgFileView>, i: int, j: int)
    requires
        0 <= i < files.len(),
        0 <= j < files[i].tags.len(),
    ensures
        forall|a: int, b: int|
            0 <= a < b < files_by_tag(files).len() ==> files_by_tag(files)[a].0 != files_by_tag(files)[b].0,
        exists|g: int|
            0 <= g < files_by_tag(files).len() && #[trigger] files_by_tag(files)[g].0 == files[i].tags[j]
                && files_by_tag(files)[g].1.contains(files[i]),
{
    let pairs = tag_file_pairs(files);
    let names = first_seen(keys_of(pairs));
    lemma_first_seen_distinct(keys_of(pairs));
    assert forall|a: int, b: int| 0 <= a < b < files_by_tag(files).len() implies files_by_tag(files)[a].0 != files_by_tag(files)[b].0 by {
        assert(files_by_tag(files)[a].0 == names[a]);
        assert(files_by_tag(files)[b].0 == names[b]);
    }
    lemma_tag_pair_present(files, i, j);
    let m = choose|m: int| 0 <= m < pairs.len() && #[trigger] pairs[m] == (files[i].tags[j], files[i]);
    lemma_pair_in_group(pairs, m);
    lemma_first_seen_contains(keys_of(pairs), files[i].tags[j]);
    let g = choose|g: int| 0 <= g < names.len() && names[g] == files[i].tags[j];
    assert(files_by_tag(files)[g].0 == files[i].tags[j]);
}

/// Every note is in the group of its own `weeks_away`.
pub proof fn lemma_note_in_its_week_group(
    groups: Seq<(int, Seq<OrgFileView>)>,
    files: Seq<OrgFileView>,
    today: int,
    k: int,
)
    requires
        sorted_groups_of(groups, weeks_away_pairs(files, today)),
        0 <= k < files.len(),
    ensures
        exists|g: int|
            0 <= g < groups.len() && #[trigger] groups[g].0 == days_ago(files[k], today) - 1
                && groups[g].1.contains(files[k]),
{
    let pairs = weeks_away_pairs(files, today);
    assert(pairs[k] == (days_ago(files[k], today) - 1, files[k]));
    lemma_pair_in_group(pairs, k);
    assert(has_group(groups, pairs[k].0));
    let g = choose|g: int| 0 <= g < groups.len() && #[trigger] groups[g].0 == pairs[k].0;
    assert(groups[g].1 == items_with_key(pairs, groups[g].0));
}

} // verus!
