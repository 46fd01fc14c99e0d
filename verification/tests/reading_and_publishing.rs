use orgwiki::dates::Timestamp;
use orgwiki::handler::{
    image_html, image_size_path, image_tag_width_suffix, last_file_with_id, page_link_html,
    CustomHtmlHandler, StartAction,
};
use orgwiki::org::ElementKind;
use orgwiki::orgtag::{OrgFile, Wiki};
use orgwiki::publisher::{export_path, page_output_path, page_sections, referring_files};
use orgwiki::reader::{add_tag_row, read_files_from, read_tags, tag_row_resolvable, TagRow};

fn note(title: &str, path: &str, id: &str, secs: i64) -> OrgFile {
    OrgFile {
        title: title.to_string(),
        path: path.to_string(),
        id: id.to_string(),
        tags: vec![],
        raw_file: String::new(),
        referenced_file_paths: vec![],
        modified: Timestamp { secs, nanos: 0 },
    }
}

fn row(path: &str, tag: &str) -> TagRow {
    TagRow { path: path.to_string(), tag: tag.to_string() }
}

#[test]
fn read_tags_fills_notes_and_tags() {
    let files = vec![note("A", "/r/a.org", "1", 0), note("B", "/r/b.org", "2", 0)];
    let rows = vec![row("\"/r/a.org\"", "rust"), row("\"/r/b.org\"", "rust"), row("\"/r/a.org\"", "go")];
    let wiki = read_tags(files, &rows);
    assert_eq!(wiki.files[0].tags, vec!["rust".to_string(), "go".to_string()]);
    assert_eq!(wiki.files[1].tags, vec!["rust".to_string()]);
    assert_eq!(wiki.tags.len(), 2);
    assert_eq!(wiki.tags[0].name, "rust");
    assert_eq!(wiki.tags[0].files, vec!["A".to_string(), "B".to_string()]);
    assert_eq!(wiki.tags[1].name, "go");
    assert_eq!(wiki.tags[1].files, vec!["A".to_string()]);
}

#[test]
fn tag_row_goes_to_first_note_at_path() {
    let mut files = vec![note("A", "/r/a.org", "1", 0), note("A2", "/r/a.org", "2", 0)];
    let mut tags = vec![];
    add_tag_row(&mut files, &mut tags, &row("'/r/a.org'", "t"));
    assert_eq!(files[0].tags, vec!["t".to_string()]);
    assert!(files[1].tags.is_empty());
    assert_eq!(tags[0].files, vec!["A".to_string()]);
}

#[test]
fn unresolvable_rows_are_told() {
    let files = vec![note("A", "/r/a.org", "1", 0)];
    assert!(tag_row_resolvable(&files, &row("\"/r/a.org\"", "t")));
    assert!(!tag_row_resolvable(&files, &row("\"/r/z.org\"", "t")));
    assert!(!tag_row_resolvable(&files, &row("x", "t")));
}

#[test]
fn read_files_drops_recent_changes_and_orders_by_recency() {
    let files = vec![
        note("old", "/o", "1", 100),
        note("Recent changes", "/rc", "2", 500),
        note("new", "/n", "3", 300),
        note("same", "/s", "4", 100),
    ];
    let kept = read_files_from(files);
    let titles: Vec<&str> = kept.iter().map(|f| f.title.as_str()).collect();
    assert_eq!(titles, vec!["new", "old", "same"]);
}

#[test]
fn handler_actions() {
    let files = vec![note("First", "/a", "abc", 0), note("Second", "/b", "abc", 0), note("Other", "/c", "xyz", 0)];
    let handler = CustomHtmlHandler::new(files);
    let action = |kind: ElementKind| {
        assert!(handler.can_start(&kind));
        handler.start_action(&kind)
    };
    assert!(matches!(action(ElementKind::Text(":ID: abc".to_string())), StartAction::Skip));
    assert!(matches!(action(ElementKind::Text("hello".to_string())), StartAction::Default));
    assert!(matches!(action(ElementKind::Other), StartAction::Default));
    match action(ElementKind::Link("file:images/cat.png".to_string())) {
        StartAction::Image(name) => assert_eq!(name, "cat.png"),
        other => panic!("{:?}", other),
    }
    match action(ElementKind::Link("file:/images/dog.png".to_string())) {
        StartAction::Image(name) => assert_eq!(name, "dog.png"),
        other => panic!("{:?}", other),
    }
    assert!(matches!(action(ElementKind::Link("https://x.com/a.png".to_string())), StartAction::Default));
    match action(ElementKind::Link("id:abc".to_string())) {
        StartAction::PageLink(title) => assert_eq!(title, "Second"),
        other => panic!("{:?}", other),
    }
    assert!(matches!(action(ElementKind::Link("id:none".to_string())), StartAction::Default));
    assert!(matches!(action(ElementKind::Link("file:x.org".to_string())), StartAction::Default));
    assert!(!handler.can_start(&ElementKind::Link("file:pics/cat.png".to_string())));
    assert_eq!(CustomHtmlHandler::default().files.len(), 0);
}

#[test]
fn last_note_with_id() {
    let files = vec![note("A", "/a", "1", 0), note("B", "/b", "2", 0), note("C", "/c", "1", 0)];
    assert_eq!(last_file_with_id(&files, "1"), Some(2));
    assert_eq!(last_file_with_id(&files, "2"), Some(1));
    assert_eq!(last_file_with_id(&files, "3"), None);
}

#[test]
fn html_pieces() {
    assert_eq!(image_size_path("cat.png"), "/Users/raheel/orgs/roam/images/cat.png");
    assert_eq!(image_tag_width_suffix(Some(601)), "width='600'");
    assert_eq!(image_tag_width_suffix(Some(600)), "");
    assert_eq!(image_tag_width_suffix(None), "");
    assert_eq!(
        image_html("cat.png", "width='600'"),
        "<a href='images/cat.png'> <img src='images/cat.png' width='600'/> </a>"
    );
    assert_eq!(page_link_html("My Note"), "<a href='My Note.html'>My Note</a>");
}

#[test]
fn output_paths_and_backlinks() {
    assert_eq!(export_path("all_tags.html"), "/Users/raheel/Projects/served/wiki/all_tags.html");
    let mut a = note("A", "/roam/a.org", "1", 0);
    let mut b = note("B", "/roam/b.org", "2", 0);
    let c = note("C", "/roam/c.org", "3", 0);
    a.referenced_file_paths = vec!["c.org".to_string()];
    b.referenced_file_paths = vec!["a.org".to_string(), "c.org".to_string()];
    let wiki = Wiki { files: vec![a, b, c], tags: vec![] };
    assert_eq!(referring_files(&wiki, &wiki.files[2]), vec![0, 1]);
    assert_eq!(referring_files(&wiki, &wiki.files[0]), vec![1]);
    assert!(referring_files(&wiki, &wiki.files[1]).is_empty());
    assert_eq!(page_output_path(&wiki.files[0]), "/Users/raheel/Projects/served/wiki/A.html");
    let mut tagged = note("T", "/roam/t.org", "9", 0);
    tagged.tags = vec!["x".to_string()];
    assert_eq!(page_sections(&tagged, &vec![]), (true, false));
    assert_eq!(page_sections(&wiki.files[2], &referring_files(&wiki, &wiki.files[2])), (false, true));
}
