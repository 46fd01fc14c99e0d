use std::collections::BTreeSet;

use orgwiki::dates::Timestamp;
use orgwiki::orgtag::{is_orgfile_path, FilesByWeeksAway, FilesForTag, OrgFile, Wiki};
use orgwiki::reader::{read_tags, TagRow};

fn note(title: &str, path: &str, day: i64) -> OrgFile {
    OrgFile {
        title: title.to_string(),
        path: path.to_string(),
        id: title.to_string(),
        tags: vec![],
        raw_file: String::new(),
        referenced_file_paths: vec![],
        modified: Timestamp { secs: day * 86400, nanos: 0 },
    }
}

fn sample_wiki() -> Wiki {
    let files = vec![note("A", "/r/a.org", 1), note("B", "/r/b.org", 2), note("C", "/r/c.org", 3)];
    let rows: Vec<TagRow> = [("a", "x"), ("b", "y"), ("a", "y"), ("c", "x"), ("a", "x")]
        .iter()
        .map(|(f, t)| TagRow { path: format!("\"/r/{}.org\"", f), tag: t.to_string() })
        .collect();
    read_tags(files, &rows)
}

#[test]
fn every_reference_is_an_org_file_link() {
    let text = "[[file:a.org][a]] [[file:b.txt]] [[file:dir/c.org]] [[id:123][d]]";
    let refs = OrgFile::referenced_file_paths(text);
    assert_eq!(refs.len(), 2);
    for r in refs {
        assert!(is_orgfile_path(&format!("file:{}", r)));
    }
}

#[test]
fn read_tags_lists_each_tagging_once() {
    let wiki = sample_wiki();
    let names: Vec<&str> = wiki.tags.iter().map(|t| t.name.as_str()).collect();
    assert_eq!(names, vec!["x", "y"]);
    for tag in &wiki.tags {
        let occurrences: usize = wiki.files.iter().map(|f| f.tags.iter().filter(|t| **t == tag.name).count()).sum();
        assert_eq!(tag.files.len(), occurrences);
        assert!(!tag.files.is_empty());
    }
    assert_eq!(wiki.tags[0].files, vec!["A".to_string(), "C".to_string(), "A".to_string()]);
}

#[test]
fn tag_pages_match_all_tags_page() {
    let wiki = sample_wiki();
    let tag_pages: BTreeSet<String> = wiki.tags.iter().map(|t| t.name.clone()).collect();
    let groups = FilesForTag::build(&wiki);
    let grouped: BTreeSet<String> = groups.iter().map(|g| g.tag_name.clone()).collect();
    assert_eq!(tag_pages, grouped);
    assert_eq!(groups.len(), grouped.len());
}

#[test]
fn a_note_is_in_the_group_of_each_of_its_tags() {
    let wiki = sample_wiki();
    let groups = FilesForTag::build(&wiki);
    for file in &wiki.files {
        for tag in &file.tags {
            let group = groups.iter().find(|g| &g.tag_name == tag).unwrap();
            assert!(group.files.iter().any(|f| f.title == file.title));
        }
    }
}

#[test]
fn every_note_is_in_its_week_group() {
    let wiki = sample_wiki();
    let today = 719163 + 10;
    let groups = FilesByWeeksAway::build_on(&wiki, today);
    for file in &wiki.files {
        let key = file.days_ago_on(today) - 1;
        let group = groups.iter().find(|g| g.weeks_away == key).unwrap();
        assert!(group.files.iter().any(|f| f.title == file.title));
    }
    let total: usize = groups.iter().map(|g| g.files.len()).sum();
    assert_eq!(total, wiki.files.len());
}
