use publications::document::{
    render_document, write_head, write_header, write_navbar, write_publications, write_tail,
    write_year_header,
};
use publications::model::{Author, MastersThesis, Publication};
use publications::registry::Registry;

const HEAD: &str = "<!DOCTYPE html>\n<html lang=\"en\">\n";
const HEADER: &str = "  <head>\n    <title>Kevin Waugh's Publications</title>\n    <link rel=\"shortcut icon\" href=\"favicon.png\" type=\"image/x-icon\">\n    <meta charset=\"utf-8\">\n    <link href=\"https://fonts.googleapis.com/css?family=Lato\" rel=\"stylesheet\">\n    <link rel=\"stylesheet\" type=\"text/css\" href=\"publications.css\">\n  </head>\n  <body>\n    <div class=\"content\">\n";
const TAIL: &str = "      </ul>\n    </div>\n  </body>\n</html>\n";

fn thesis(title: &str, year: u32) -> Publication {
    Publication::MastersThesis(MastersThesis {
        authors: vec!["A".to_string()],
        title: title.to_string(),
        school: "S".to_string(),
        year,
        note: None,
        links: Vec::new(),
    })
}

#[test]
fn fixed_chrome_pieces() {
    let mut out = String::new();
    write_head(&mut out);
    assert_eq!(out, HEAD);

    let mut out = String::new();
    write_header(&mut out);
    assert_eq!(out, HEADER);

    let mut out = String::new();
    write_tail(&mut out);
    assert_eq!(out, TAIL);
}

#[test]
fn navbar_lists_years_then_scholar() {
    let mut out = String::new();
    write_navbar(&mut out, &vec![2020, 2019]);
    assert_eq!(
        out,
        "      <ul class=\"navbar\">\n        <li><a href=\"#2020\">2020</a></li>\n        <li>| <a href=\"#2019\">2019</a></li>\n        <li>| <a href=\"https://scholar.google.com/citations?hl=en&user=l5ryKEkAAAAJ\">Scholar</a></li>\n      </ul>\n      <ul class=\"entries\">\n"
    );
}

#[test]
fn year_header_anchors_the_year() {
    let mut out = String::new();
    write_year_header(&mut out, 2020);
    assert_eq!(out, "        <h2 class=\"year\" id=\"2020\">2020</h2>\n");
}

#[test]
fn publications_emit_one_section_per_run() {
    let reg = Registry::build(Vec::new()).unwrap();
    let pubs = vec![thesis("T1", 2020), thesis("T2", 2020), thesis("T3", 2019)];
    let mut out = String::new();
    write_publications(&mut out, &reg, &pubs);
    let mut expected = String::new();
    expected.push_str("        <h2 class=\"year\" id=\"2020\">2020</h2>\n");
    expected.push_str("        <li class=\"entry\"><span class=\"author\">A</span>. <span class=\"title\">T1</span>. <span class=\"location\">Master's thesis, S, 2020</span>.</li>\n");
    expected.push_str("        <li class=\"entry\"><span class=\"author\">A</span>. <span class=\"title\">T2</span>. <span class=\"location\">Master's thesis, S, 2020</span>.</li>\n");
    expected.push_str("        <h2 class=\"year\" id=\"2019\">2019</h2>\n");
    expected.push_str("        <li class=\"entry\"><span class=\"author\">A</span>. <span class=\"title\">T3</span>. <span class=\"location\">Master's thesis, S, 2019</span>.</li>\n");
    assert_eq!(out, expected);
}

#[test]
fn full_document_for_one_publication() {
    let reg = Registry::build(vec![Author {
        name: "A".to_string(),
        url: "https://a.example".to_string(),
    }])
    .unwrap();
    let doc = render_document(&reg, vec![thesis("T", 2019)]);
    let mut expected = String::new();
    expected.push_str(HEAD);
    expected.push_str(HEADER);
    expected.push_str("      <ul class=\"navbar\">\n        <li><a href=\"#2019\">2019</a></li>\n        <li>| <a href=\"https://scholar.google.com/citations?hl=en&user=l5ryKEkAAAAJ\">Scholar</a></li>\n      </ul>\n      <ul class=\"entries\">\n");
    expected.push_str("        <h2 class=\"year\" id=\"2019\">2019</h2>\n");
    expected.push_str("        <li class=\"entry\"><a class=\"author_link\" href=\"https://a.example\"><span class=\"author\">A</span></a>. <span class=\"title\">T</span>. <span class=\"location\">Master's thesis, S, 2019</span>.</li>\n");
    expected.push_str(TAIL);
    assert_eq!(doc, expected);
}

#[test]
fn document_orders_years_descending_end_to_end() {
    let reg = Registry::build(Vec::new()).unwrap();
    let doc = render_document(
        &reg,
        vec![thesis("p0", 2020), thesis("p1", 2019), thesis("p2", 2020)],
    );
    let h2020 = doc.find("id=\"2020\"").unwrap();
    let h2019 = doc.find("id=\"2019\"").unwrap();
    assert!(h2020 < h2019);
    let p0 = doc.find("p0").unwrap();
    let p2 = doc.find("p2").unwrap();
    let p1 = doc.find("p1").unwrap();
    assert!(p0 < p2 && p2 < h2019 && h2019 < p1);
}
