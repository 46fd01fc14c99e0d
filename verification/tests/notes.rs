use orgwiki::dates::{day_of_reading, day_number_in_utc, is_in_calendar_range, today_in_utc, Timestamp};
use orgwiki::orgtag::{
    is_orgfile_path, FilesByWeeksAway, FilesForTag, FilesSorted, OrgFile, OrgTag, Wiki,
};
use orgwiki::sorting::stable_sort_by_keys;

const DAY: i64 = 86400;

fn note(title: &str, tags: &[&str], day: i64) -> OrgFile {
    OrgFile {
        title: title.to_string(),
        path: format!("/roam/{}.org", title),
        id: format!("id-{}", title),
        tags: tags.iter().map(|t| t.to_string()).collect(),
        raw_file: String::new(),
        referenced_file_paths: vec![],
        modified: Timestamp { secs: day * DAY + 3600, nanos: 0 },
    }
}

fn titles(files: &[OrgFile]) -> Vec<String> {
    files.iter().map(|f| f.title.clone()).collect()
}

#[test]
fn org_file_links() {
    assert!(is_orgfile_path("file:notes/a.org"));
    assert!(!is_orgfile_path("file:image.png"));
    assert!(!is_orgfile_path("https://x.org"));
    assert!(!is_orgfile_path("id:123"));
}

#[test]
fn references_come_from_orgize_links() {
    let text = "* Heading\nSee [[file:other.org][Other]] and [[file:pic.png]] and [[https://example.org][site]].\nAlso [[file:dir/third.org]].\n";
    let refs = OrgFile::referenced_file_paths(text);
    assert_eq!(refs, vec!["other.org".to_string(), "dir/third.org".to_string()]);
    assert!(OrgFile::referenced_file_paths("no links here").is_empty());
}

#[test]
fn new_unquotes_and_reads_references() {
    let file = OrgFile::new(
        "\"Title\"".to_string(),
        "\"/roam/title.org\"".to_string(),
        "\"abc-123\"".to_string(),
        vec![],
        "[[file:x.org][X]]".to_string(),
        Timestamp { secs: 0, nanos: 0 },
    );
    assert_eq!(file.title, "Title");
    assert_eq!(file.path, "/roam/title.org");
    assert_eq!(file.id, "abc-123");
    assert_eq!(file.referenced_file_paths, vec!["x.org".to_string()]);
    assert!(file.tags.is_empty());
}

#[test]
fn add_tag_and_add_path() {
    let mut file = note("a", &[], 0);
    file.add_tag("rust");
    file.add_tag("verus");
    assert_eq!(file.tags, vec!["rust".to_string(), "verus".to_string()]);
    let mut tag = OrgTag { name: "rust".to_string(), files: vec![] };
    tag.add_path("a".to_string());
    assert_eq!(tag.files, vec!["a".to_string()]);
    assert_eq!(tag.output_path(), "/Users/raheel/Projects/served/wiki/tag-rust.html");
}

#[test]
fn base_paths() {
    assert_eq!(Wiki::base_export_path(), "/Users/raheel/Projects/served/wiki/");
    assert_eq!(Wiki::base_org_roam_path(), "/Users/raheel/orgs/roam");
    let wiki = Wiki::default();
    assert!(wiki.files.is_empty() && wiki.tags.is_empty());
}

#[test]
fn day_numbers_follow_chrono() {
    assert_eq!(day_number_in_utc(Timestamp { secs: 0, nanos: 0 }), 719163);
    assert_eq!(day_number_in_utc(Timestamp { secs: -1, nanos: 999_999_999 }), 719162);
    assert_eq!(day_number_in_utc(Timestamp { secs: DAY - 1, nanos: 0 }), 719163);
    assert_eq!(day_number_in_utc(Timestamp { secs: DAY, nanos: 0 }), 719164);
    assert!(!is_in_calendar_range(Timestamp { secs: 0, nanos: 1_000_000_000 }));
    assert!(!is_in_calendar_range(Timestamp { secs: i64::MAX, nanos: 0 }));
    assert!(is_in_calendar_range(Timestamp { secs: 1_700_000_000, nanos: 5 }));
    let today = today_in_utc().unwrap();
    assert!(today > 738000);
    assert!(note("x", &[], 0).modified_in_range());
}

#[test]
fn day_of_a_clock_reading() {
    assert_eq!(day_of_reading(0, 0), Some(719163));
    assert_eq!(day_of_reading(86399, 999_999_999), Some(719163));
    assert_eq!(day_of_reading(1_700_000_000, 0), Some(719163 + 19675));
    assert_eq!(day_of_reading(u64::MAX, 0), None);
    assert_eq!(day_of_reading(i64::MAX as u64, 0), None);
}

#[test]
fn a_single_note_is_sorted_whatever_its_time() {
    let odd = OrgFile { modified: Timestamp { secs: i64::MAX, nanos: 0 }, ..note("odd", &[], 0) };
    let wiki = Wiki { files: vec![odd], tags: vec![] };
    assert_eq!(titles(&FilesSorted::build_on(&wiki, 719163).files), vec!["odd"]);
    assert!(FilesSorted::build_on(&Wiki::default(), 719163).files.is_empty());
}

#[test]
fn small_wikis_need_no_clock() {
    let odd = OrgFile { modified: Timestamp { secs: i64::MAX, nanos: 0 }, ..note("odd", &[], 0) };
    let one = Wiki { files: vec![odd], tags: vec![] };
    assert_eq!(titles(&FilesSorted::build(&one).unwrap().files), vec!["odd"]);
    assert!(FilesSorted::build(&Wiki::default()).unwrap().files.is_empty());
    assert!(FilesByWeeksAway::build(&Wiki::default()).unwrap().is_empty());
}

#[test]
fn days_ago_counts_calendar_days() {
    let file = note("a", &[], 10);
    assert_eq!(file.days_ago_on(719163 + 10), 0);
    assert_eq!(file.days_ago_on(719163 + 17), 7);
    let recent = OrgFile { modified: Timestamp { secs: 1_700_000_000, nanos: 0 }, ..note("b", &[], 0) };
    assert!(recent.modified_days_ago().unwrap() >= 0);
}

#[test]
fn stable_sort_keeps_equal_keys_in_order() {
    let items = vec!['a', 'b', 'c', 'd', 'e'];
    let keys = vec![3i128, 1, 3, -2, 1];
    assert_eq!(stable_sort_by_keys(items, &keys), vec!['d', 'b', 'e', 'a', 'c']);
    assert!(stable_sort_by_keys(Vec::<u8>::new(), &vec![]).is_empty());
}

#[test]
fn files_for_tag_groups_by_first_appearance() {
    let wiki = Wiki {
        files: vec![note("a", &["x", "y"], 0), note("b", &["y"], 0), note("c", &[], 0), note("d", &["x", "x"], 0)],
        tags: vec![],
    };
    let groups = FilesForTag::build(&wiki);
    let names: Vec<String> = groups.iter().map(|g| g.tag_name.clone()).collect();
    assert_eq!(names, vec!["x".to_string(), "y".to_string()]);
    assert_eq!(titles(&groups[0].files), vec!["a", "d", "d"]);
    assert_eq!(titles(&groups[1].files), vec!["a", "b"]);
    assert!(FilesForTag::build(&Wiki::default()).is_empty());
}

#[test]
fn files_sorted_by_days_ago() {
    let wiki = Wiki {
        files: vec![note("old", &[], 100), note("new", &[], 120), note("mid", &[], 110), note("new2", &[], 120)],
        tags: vec![],
    };
    let today = 719163 + 125;
    let sorted = FilesSorted::build_on(&wiki, today);
    assert_eq!(titles(&sorted.files), vec!["new", "new2", "mid", "old"]);
    let by_clock = FilesSorted::build(&wiki).unwrap();
    assert_eq!(titles(&by_clock.files), vec!["new", "new2", "mid", "old"]);
}

#[test]
fn files_by_weeks_away_groups_and_orders() {
    let wiki = Wiki {
        files: vec![note("a", &[], 100), note("b", &[], 120), note("c", &[], 100), note("d", &[], 119)],
        tags: vec![],
    };
    let today = 719163 + 121;
    let groups = FilesByWeeksAway::build_on(&wiki, today);
    let keys: Vec<i32> = groups.iter().map(|g| g.weeks_away).collect();
    assert_eq!(keys, vec![0, 1, 20]);
    assert_eq!(titles(&groups[0].files), vec!["b"]);
    assert_eq!(titles(&groups[1].files), vec!["d"]);
    assert_eq!(titles(&groups[2].files), vec!["a", "c"]);
    assert_eq!(FilesByWeeksAway::build(&wiki).unwrap().len(), 3);
}

#[test]
fn duplicate_copies_every_field() {
    let mut file = note("a", &["t"], 5);
    file.referenced_file_paths = vec!["b.org".to_string()];
    let copy = file.duplicate();
    assert_eq!(copy.title, file.title);
    assert_eq!(copy.path, file.path);
    assert_eq!(copy.id, file.id);
    assert_eq!(copy.tags, file.tags);
    assert_eq!(copy.referenced_file_paths, file.referenced_file_paths);
    assert_eq!(copy.modified, file.modified);
}
