use vstd::prelude::*;
use crate::org::{ElementKind, ElementView};
use crate::orgtag::{OrgFile, OrgFileView, files_view, ORG_ROAM_PATH, Wiki};
use crate::text::{has_prefix, has_suffix, without_prefix, starts_with, ends_with, strip_prefix};

verus! {

/// What the page writer does when it enters an element.
#[derive(Debug)]
pub enum StartAction {
    /// Writes nothing (the `:ID:` property line).
    Skip,
    /// Writes what orgize's default HTML writer writes.
    Default,
    /// Writes a link around the image `images/<file name>`.
    Image(String),
    /// Writes a link to the published page with this title.
    PageLink(String),
}

/// `StartAction` with its texts as character sequences.
pub enum StartActionView {
    Skip,
    Default,
    Image(Seq<char>),
    PageLink(Seq<char>),
}

impl View for StartAction {
    type V = StartActionView;

    open spec fn view(&self) -> StartActionView {
        match self {
            StartAction::Skip => StartActionView::Skip,
            StartAction::Default => StartActionView::Default,
            StartAction::Image(f) => StartActionView::Image(f@),
            StartAction::PageLink(t) => StartActionView::PageLink(t@),
        }
    }
}

/// A link to a local PNG image.
pub open spec fn is_local_png(path: Seq<char>) -> bool {
    has_suffix(path, "png"@) && !has_prefix(path, "http"@)
}

/// The image's file name under `images/`, for a path `file:images/<name>` or
/// `file:/images/<name>`.
pub open spec fn image_file_name(path: Seq<char>) -> Option<Seq<char>> {
    if has_prefix(path, "file:images/"@) {
        Some(without_prefix(path, "file:images/"@))
    } else if has_prefix(path, "file:/images/"@) {
        Some(without_prefix(path, "file:/images/"@))
    } else {
        None
    }
}

/// The page writer can handle the element: a link to a local PNG image
/// must point into `images/`.
pub open spec fn can_start(element: ElementView) -> bool {
    match element {
        ElementView::Link(p) => is_local_png(p) ==> image_file_name(p) is Some,
        _ => true,
    }
}

/// The last note whose node id is `id`, if any.
pub open spec fn last_with_id(files: Seq<OrgFileView>, id: Seq<char>) -> Option<int>
    decreases files.len(),
{
    if files.len() == 0 {
        None
    } else if files.last().id == id {
        Some(files.len() - 1)
    } else {
        last_with_id(files.drop_last(), id)
    }
}

/// What the page writer does on entering `element`, given the notes `files`.
pub open spec fn start_action_of(files: Seq<OrgFileView>, element: ElementView) -> StartActionView {
    match element {
        ElementView::Text(t) => if has_prefix(t, ":ID:"@) {
            StartActionView::Skip
        } else {
            StartActionView::Default
        },
        ElementView::Link(p) => if is_local_png(p) {
            StartActionView::Image(image_file_name(p).unwrap())
        } else if has_prefix(p, "id:"@) {
            match last_with_id(files, without_prefix(p, "id:"@)) {
                Some(k) => StartActionView::PageLink(files[k].title),
                None => StartActionView::Default,
            }
        } else {
            StartActionView::Default
        },
        ElementView::Other => StartActionView::Default,
    }
}

/// The last note with a given id is one of the notes, and has that id.
pub proof fn lemma_last_with_id(files: Seq<OrgFileView>, id: Seq<char>)
    ensures
        last_with_id(files, id) matches Some(k) ==> 0 <= k < files.len() && files[k].id == id,
    decreases files.len(),
{
    if files.len() > 0 && files.last().id != id {
        lemma_last_with_id(files.drop_last(), id);
    }
}

/// A link whose destination starts with `http` (remote, over http or https)
/// is always accepted and never becomes an image link.
pub proof fn lemma_remote_links_are_no_images(files: Seq<OrgFileView>, p: Seq<char>)
    requires
        has_prefix(p, "http"@),
    ensures
        can_start(ElementView::Link(p)),
        !(start_action_of(files, ElementView::Link(p)) is Image),
{
}

/// The image's file name under `images/`.
fn image_name(path: &str) -> (r: Option<String>)
    ensures
        r matches Some(n) ==> image_file_name(path@) == Some(n@),
        r is None ==> image_file_name(path@) is None,
{
    match strip_prefix(path, "file:images/") {
        Some(name) => Some(name),
        None => strip_prefix(path, "file:/images/"),
    }
}

/// The last note whose node id is `id`.
pub fn last_file_with_id(files: &Vec<OrgFile>, id: &str) -> (r: Option<usize>)
    ensures
        r matches Some(k) ==> last_with_id(files_view(files@), id@) == Some(k as int),
        r is None ==> last_with_id(files_view(files@), id@) is None,
{
    let ghost fv = files_view(files@);
    let wanted = String::from_str(id);
    let mut k: usize = files.len();
    assert(fv.subrange(0, k as int) =~= fv);
    while k > 0
        invariant
            fv == files_view(files@),
            fv.len() == files@.len(),
            wanted@ == id@,
            0 <= k <= fv.len(),
            last_with_id(fv, id@) == last_with_id(fv.subrange(0, k as int), id@),
        decreases k,
    {
        let ghost pre = fv.subrange(0, k as int);
        assert(pre.last() == files@[k - 1]@);
        assert(pre.drop_last() =~= fv.subrange(0, k - 1));
        if files[k - 1].id == wanted {
            return Some(k - 1);
        }
        k = k - 1;
    }
    None
}

/// The page writer of the wiki: it knows the notes, so that a link to a
/// node id becomes a link to that node's page.
pub struct CustomHtmlHandler {
    pub files: Vec<OrgFile>,
}

impl Default for CustomHtmlHandler {
    fn default() -> (r: CustomHtmlHandler)
        ensures
            r.files@.len() == 0,
    {
        CustomHtmlHandler { files: Vec::new() }
    }
}

impl CustomHtmlHandler {
    /// A page writer that knows the notes `files`.
    pub fn new(files: Vec<OrgFile>) -> (r: CustomHtmlHandler)
        ensures
            r.files@ == files@,
    {
        CustomHtmlHandler { files }
    }

    /// Tells whether the writer can handle `element` (a link to a local PNG
    /// image must point into `images/`).
    pub fn can_start(&self, element: &ElementKind) -> (r: bool)
        ensures
            r == can_start(element@),
            (element@ matches ElementView::Link(p) && has_prefix(p, "http"@)) ==> r,
    {
        match element {
            ElementKind::Link(p) => {
                if ends_with(p.as_str(), "png") && !starts_with(p.as_str(), "http") {
                    match image_name(p.as_str()) {
                        Some(_) => true,
                        None => false,
                    }
                } else {
                    true
                }
            },
            _ => true,
        }
    }

    /// What to write on entering `element`: nothing for the `:ID:` line, an
    /// image link for a local PNG image, a link to the page of the last note
    /// with the linked node id, and otherwise what orgize writes.
    pub fn start_action(&self, element: &ElementKind) -> (r: StartAction)
        requires
            can_start(element@),
        ensures
            r@ == start_action_of(files_view(self.files@), element@),
            (element@ matches ElementView::Link(p) && has_prefix(p, "http"@)) ==> !(r is Image),
    {
        proof {
            if let ElementView::Link(p) = element@ {
                if has_prefix(p, "http"@) {
                    lemma_remote_links_are_no_images(files_view(self.files@), p);
                }
            }
        }
        match element {
            ElementKind::Text(text) => {
                if starts_with(text.as_str(), ":ID:") {
                    StartAction::Skip
                } else {
                    StartAction::Default
                }
            },
            ElementKind::Link(p) => {
                if ends_with(p.as_str(), "png") && !starts_with(p.as_str(), "http") {
                    match image_name(p.as_str()) {
                        Some(name) => StartAction::Image(name),
                        None => StartAction::Default,
                    }
                } else {
                    match strip_prefix(p.as_str(), "id:") {
                        Some(link_id) => match last_file_with_id(&self.files, link_id.as_str()) {
                            Some(k) => {
                                proof {
                                    lemma_last_with_id(files_view(self.files@), link_id@);
                                }
                                StartAction::PageLink(self.files[k].title.clone())
                            },
                            None => StartAction::Default,
                        },
                        None => StartAction::Default,
                    }
                }
            },
            ElementKind::Other => StartAction::Default,
        }
    }
}

/// The image file whose size decides the width: `<org-roam path>/images/<name>`.
pub fn image_size_path(filename: &str) -> (r: String)
    ensures
        r@ == ORG_ROAM_PATH@ + "/images/"@ + filename@,
{
    let mut path = Wiki::base_org_roam_path();
    path.append("/images/");
    path.append(filename);
    path
}

/// The width attribute of an image: `width='600'` for an image wider than
/// 600 pixels, nothing otherwise or where its size is unknown.
pub fn image_tag_width_suffix(width: Option<usize>) -> (r: String)
    ensures
        r@ == (if width matches Some(w) && w > 600 { "width='600'"@ } else { ""@ }),
{
    match width {
        Some(w) => if w > 600 {
            String::from_str("width='600'")
        } else {
            String::from_str("")
        },
        None => String::from_str(""),
    }
}

/// The HTML of an image link:
/// `<a href='images/<f>'> <img src='images/<f>' <suffix>/> </a>`.
pub fn image_html(filename: &str, suffix: &str) -> (r: String)
    ensures
        r@ == "<a href='images/"@ + filename@ + "'> <img src='images/"@ + filename@ + "' "@ + suffix@
            + "/> </a>"@,
{
    let mut html = String::from_str("<a href='images/");
    html.append(filename);
    html.append("'> <img src='images/");
    html.append(filename);
    html.append("' ");
    html.append(suffix);
    html.append("/> </a>");
    html
}

/// The HTML of a link to the page `title`: `<a href='<title>.html'><title></a>`.
pub fn page_link_html(title: &str) -> (r: String)
    ensures
        r@ == "<a href='"@ + title@ + ".html'>"@ + title@ + "</a>"@,
{
    let mut html = String::from_str("<a href='");
    html.append(title);
    html.append(".html'>");
    html.append(title);
    html.append("</a>");
    html
}

} // verus!
