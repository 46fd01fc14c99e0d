use vstd::prelude::*;
use tera::Tera;

verus! {

/// The opening part of every page: the document head, the stylesheet and the
/// navigation bar.
pub const HEADER: &'static str = "
<html>
<head>
 <title>
{{title}}
 </title>
 <meta charset='utf-8'/> </head>
<link rel='stylesheet' href='css/lit.css'>
<body>
<div class='c'>
<div class='row card'>
<div class='2 col'>
<a href='all_pages.html'> All Pages </a>
</div>
<div class='2 col'>
<a href='all_tags.html'> All Tags </a>
</div>
</div>
</small>
\t";

/// The closing part of every page.
pub const FOOTER: &'static str = "
    </div>
\t</body></html>
    ";

/// The body of the page that lists the pages of one tag.
pub const TAG_PAGE_BODY: &'static str = "
<div>
<h1>
All pages for <strong>{{tag_name}}</strong>
</h1>

<ul>
{% for page in pages %}
<li>
  <a href='{{page}}.html'>{{page}}</a>
</li>
{% endfor %}
</ul>
</div>
";

/// The body of the page that lists every tag with its pages.
pub const ALL_TAGS_BODY: &'static str = "
<h1>All Tags</h1>
<ul>
{% for files_for_tag in tag_files %}

\t<h3>
\t{{ files_for_tag.tag_name }}
\t</h3>


\t{% for page in files_for_tag.files %}
\t\t<li>
\t\t<a href='{{page.title}}.html'>{{page.title}}</a>
\t\t</li>
\t{% endfor %}

{% endfor %}
</ul>
";

/// The body of the page that lists every page.
pub const ALL_PAGES_BODY: &'static str = "
<h1>All Pages</h1>
<ul>
{% for page in pages.files %}
\t\t<li>
\t\t<a href='{{page.title}}.html'>{{page.title}}</a>
\t\t</li>
{% endfor %}
</ul>
";

/// The body of the page of one org file: title, tags, backlinks and content.
pub const PAGE_BODY: &'static str = "
<hr/>
<h1 class=\"pagename\"><strong>{{title}}</strong></h1>
  <hr/>
   <small>
   <div>
    {% if tags %}
    Tags: 
\t{% for tag in tags %}
    <a href='tag-{{tag }}.html'>{{ tag }}</a>
\t{% endfor %}
    {% endif %}
   </div>


   <div>
    {% if backlinks %}
    What links here: 
\t{% for file in backlinks %}
    <a href='{{file.title}}.html' style='margin:10px'>{{ file.title }}</a> 
\t{% endfor %}
\t{% endif %}
   </div>
   </small>

\t<div>{{page}}</div>
";

/// The text of a whole page around `content`.
pub open spec fn page_text(content: Seq<char>) -> Seq<char> {
    HEADER@ + content + FOOTER@
}

/// The opening part of every page.
pub fn header() -> (r: String)
    ensures
        r@ == HEADER@,
{
    String::from_str(HEADER)
}

/// The closing part of every page.
pub fn footer() -> (r: String)
    ensures
        r@ == FOOTER@,
{
    String::from_str(FOOTER)
}

/// `content` between the header and the footer.
pub fn template_with_content(content: &str) -> (r: String)
    ensures
        r@ == page_text(content@),
{
    let mut result = header();
    result.append(content);
    let f = footer();
    result.append(f.as_str());
    result
}

#[verifier::external_type_specification]
#[verifier::external_body]
pub struct ExTera(tera::Tera);

/// For each template name that a `Tera` holds, the text that the template was
/// parsed from.
pub uninterp spec fn tera_template_sources(tera: Tera) -> Map<Seq<char>, Seq<char>>;

/// The file-name suffixes for which a `Tera` escapes HTML when it renders.
pub uninterp spec fn tera_autoescape_suffixes(tera: Tera) -> Seq<Seq<char>>;

/// Whether `Tera::add_raw_template(name, content)` gives `Ok` on a `Tera`
/// that holds no template: whether tera parses `content` and finds every
/// parent template and macro file that it names among the templates, here
/// only itself.
pub uninterp spec fn tera_accepts_alone(name: Seq<char>, content: Seq<char>) -> bool;

/// `<Tera as Default>::default()`: a `Tera` with no template, whose
/// autoescape suffixes are `.html`, `.htm` and `.xml` (the literal that
/// tera's `Default` impl writes).
#[verifier::external_body]
fn new_tera() -> (created: Tera)
    ensures
        tera_template_sources(created).dom().is_empty(),
        tera_autoescape_suffixes(created) == seq![".html"@, ".htm"@, ".xml"@],
{
    Tera::default()
}

/// `Tera::autoescape_on(suffixes)`: replaces the autoescape suffixes by
/// `suffixes` and leaves the templates alone.
#[verifier::external_body]
fn tera_autoescape_on(tera: &mut Tera, suffixes: Vec<&'static str>)
    ensures
        tera_template_sources(*final(tera)) == tera_template_sources(*old(tera)),
        tera_autoescape_suffixes(*final(tera)) == suffixes@.map_values(|s: &'static str| s@),
{
    tera.autoescape_on(suffixes)
}

/// `Tera::add_raw_template(name, content)`, `true` where it gives `Ok`. Then
/// the template `name` is the one parsed from `content` and the others are
/// kept. On `Err` either the parse failed and nothing changed, or a later
/// check (inheritance, macro files) failed after the template was inserted.
/// The autoescape suffixes are kept. On a `Tera` that holds no template the
/// outcome depends on `name` and `content` alone (parsing, then looking up
/// the parents and macro files among the templates); it is named, not stated.
#[verifier::external_body]
fn tera_add_raw_template(tera: &mut Tera, name: &str, content: &str) -> (added: bool)
    ensures
        tera_template_sources(*old(tera)).dom().is_empty() ==> added == tera_accepts_alone(name@, content@),
        added ==> tera_template_sources(*final(tera))
            == tera_template_sources(*old(tera)).insert(name@, content@),
        !added ==> (tera_template_sources(*final(tera)) == tera_template_sources(*old(tera))
            || tera_template_sources(*final(tera))
            == tera_template_sources(*old(tera)).insert(name@, content@)),
        tera_autoescape_suffixes(*final(tera)) == tera_autoescape_suffixes(*old(tera)),
{
    match tera.add_raw_template(name, content) {
        Ok(()) => true,
        Err(_) => false,
    }
}

/// What the template functions hand back: one template `name` parsed from
/// the page built around `body`, with autoescaping switched off.
pub open spec fn single_template(tera: Tera, name: Seq<char>, body: Seq<char>) -> bool {
    &&& tera_template_sources(tera) == map![name => page_text(body)]
    &&& tera_autoescape_suffixes(tera) == Seq::<Seq<char>>::empty()
}

/// A `Tera` that holds the template `name` built around `body`, with
/// autoescaping switched off; `None` where tera refuses the template.
pub fn single_page_template(name: &str, body: &str) -> (r: Option<Tera>)
    ensures
        r is Some <==> tera_accepts_alone(name@, page_text(body@)),
        r matches Some(t) ==> single_template(t, name@, body@),
{
    let mut tera = new_tera();
    let no_suffixes: Vec<&'static str> = Vec::new();
    tera_autoescape_on(&mut tera, no_suffixes);
    let content = template_with_content(body);
    if tera_add_raw_template(&mut tera, name, content.as_str()) {
        assert(tera_template_sources(tera) =~= map![name@ => page_text(body@)]);
        assert(tera_autoescape_suffixes(tera) =~= Seq::<Seq<char>>::empty());
        Some(tera)
    } else {
        None
    }
}

/// The template of the page that lists the pages of one tag (`tag.html`).
pub fn tag_page_template() -> (r: Option<Tera>)
    ensures
        r is Some <==> tera_accepts_alone("tag.html"@, page_text(TAG_PAGE_BODY@)),
        r matches Some(t) ==> single_template(t, "tag.html"@, TAG_PAGE_BODY@),
{
    single_page_template("tag.html", TAG_PAGE_BODY)
}

/// The template of the page that lists all tags (`all_tags.html`).
pub fn all_tags_template() -> (r: Option<Tera>)
    ensures
        r is Some <==> tera_accepts_alone("all_tags.html"@, page_text(ALL_TAGS_BODY@)),
        r matches Some(t) ==> single_template(t, "all_tags.html"@, ALL_TAGS_BODY@),
{
    single_page_template("all_tags.html", ALL_TAGS_BODY)
}

/// The template of the page that lists all pages (`all_pages.html`).
pub fn all_pages_template() -> (r: Option<Tera>)
    ensures
        r is Some <==> tera_accepts_alone("all_pages.html"@, page_text(ALL_PAGES_BODY@)),
        r matches Some(t) ==> single_template(t, "all_pages.html"@, ALL_PAGES_BODY@),
{
    single_page_template("all_pages.html", ALL_PAGES_BODY)
}

/// The template of the page of one org file (`page.html`).
pub fn page_template() -> (r: Option<Tera>)
    ensures
        r is Some <==> tera_accepts_alone("page.html"@, page_text(PAGE_BODY@)),
        r matches Some(t) ==> single_template(t, "page.html"@, PAGE_BODY@),
{
    single_page_template("page.html", PAGE_BODY)
}

} // verus!
