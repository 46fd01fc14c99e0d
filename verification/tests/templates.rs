use orgwiki::templates::{
    all_pages_template, all_tags_template, footer, header, page_template, tag_page_template,
    template_with_content,
};

#[test]
fn page_text_is_header_content_footer() {
    let page = template_with_content("<p>body</p>");
    assert_eq!(page, format!("{}<p>body</p>{}", header(), footer()));
    assert!(header().starts_with("\n<html>\n<head>"));
    assert!(header().contains("<a href='all_pages.html'> All Pages </a>"));
    assert_eq!(footer(), "\n    </div>\n\t</body></html>\n    ");
}

#[test]
fn tag_page_renders_pages_of_tag() {
    let tera = tag_page_template().expect("tera accepts the tag template");
    let mut context = tera::Context::new();
    context.insert("tag_name", "rust");
    context.insert("pages", &vec!["Ownership".to_string(), "Lifetimes".to_string()]);
    context.insert("title", "rust");
    let html = tera.render("tag.html", &context).unwrap();
    assert!(html.contains("All pages for <strong>rust</strong>"));
    assert!(html.contains("<a href='Ownership.html'>Ownership</a>"));
    assert!(html.contains("<a href='Lifetimes.html'>Lifetimes</a>"));
    assert!(html.contains("<title>\nrust\n </title>"));
}

#[test]
fn templates_do_not_escape() {
    let tera = tag_page_template().unwrap();
    let mut context = tera::Context::new();
    context.insert("tag_name", "<b>&</b>");
    context.insert("pages", &Vec::<String>::new());
    context.insert("title", "t");
    let html = tera.render("tag.html", &context).unwrap();
    assert!(html.contains("<strong><b>&</b></strong>"));
}

#[test]
fn every_template_loads_under_its_name() {
    assert!(all_tags_template().unwrap().get_template("all_tags.html").is_ok());
    assert!(all_pages_template().unwrap().get_template("all_pages.html").is_ok());
    assert!(page_template().unwrap().get_template("page.html").is_ok());
    assert!(tag_page_template().unwrap().get_template("tag.html").is_ok());
    assert!(page_template().unwrap().get_template("tag.html").is_err());
}
