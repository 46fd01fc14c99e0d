use orgwiki::helpers::{can_trim_start_end_char, trim_start_end_char};
use orgwiki::text::{ends_with, last_path_segment, starts_with, strip_prefix};
use orgwiki::errors::Error;
use orgwiki::watch::{watch_action, WatchAction};

#[test]
fn trim_drops_first_and_last_char() {
    assert_eq!(trim_start_end_char("\"My note\""), "My note");
    assert_eq!(trim_start_end_char("ab"), "");
    assert_eq!(trim_start_end_char("\"é\""), "é");
}

#[test]
fn trim_of_quoted_value_gives_value_back() {
    for value in ["", "x", "/home/me/notes/a.org", "ünïcödé"] {
        let quoted = format!("\"{}\"", value);
        assert!(can_trim_start_end_char(&quoted));
        assert_eq!(trim_start_end_char(&quoted), value);
    }
}

#[test]
fn trim_refuses_what_slicing_would_panic_on() {
    assert!(!can_trim_start_end_char(""));
    assert!(!can_trim_start_end_char("a"));
    assert!(!can_trim_start_end_char("éa"));
    assert!(!can_trim_start_end_char("aé"));
    assert!(can_trim_start_end_char("aéa"));
}

#[test]
fn starts_and_ends_with() {
    assert!(starts_with("file:a.org", "file:"));
    assert!(!starts_with("fil", "file:"));
    assert!(starts_with("abc", ""));
    assert!(ends_with("file:a.org", ".org"));
    assert!(!ends_with("file:a.orgx", ".org"));
    assert!(!ends_with("rg", ".org"));
}

#[test]
fn strip_prefix_like_str() {
    assert_eq!(strip_prefix("id:1234", "id:"), Some("1234".to_string()));
    assert_eq!(strip_prefix("xid:1234", "id:"), None);
    assert_eq!(strip_prefix("id:", "id:"), Some(String::new()));
}

#[test]
fn last_path_segment_like_split_last() {
    for path in ["/a/b/c.org", "c.org", "/a/b/", "", "/", "a//b"] {
        assert_eq!(last_path_segment(path), path.split('/').last().unwrap());
    }
    assert_eq!(last_path_segment("/Users/me/roam/note.org"), "note.org");
}

#[test]
fn watch_publishes_only_for_file_changes() {
    assert_eq!(watch_action(false, true, true, true), WatchAction::NotAFile);
    assert_eq!(watch_action(true, false, false, false), WatchAction::NotAValidEvent);
    assert_eq!(watch_action(true, true, false, false), WatchAction::Publish);
    assert_eq!(watch_action(true, false, true, false), WatchAction::Publish);
    assert_eq!(watch_action(true, false, false, true), WatchAction::Publish);
}

#[test]
fn error_texts() {
    assert_eq!(Error::FileAccess("no such file".to_string()).to_string(), "no such file");
    assert_eq!(Error::DBAccess("locked".to_string()).to_string(), "locked");
    assert_eq!(
        Error::NotifyError("watch failed".to_string()).to_string(),
        "Error with notify: watch failed"
    );
}
