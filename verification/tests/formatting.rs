use publications::citation::{
    make_pages, render_link, write_author, write_authors, write_in_proceedings,
    write_journal_article, write_links, write_location, write_masters_thesis, write_note,
    write_publication, write_technical_report, write_title,
};
use publications::model::{
    Author, InProceedings, JournalArticle, Link, MastersThesis, Publication, TechnicalReport,
    UrlLink,
};
use publications::numfmt::{i32_string, u32_string};
use publications::registry::Registry;

fn empty_registry() -> Registry {
    Registry::build(Vec::new()).unwrap()
}

#[test]
fn decimal_rendering() {
    assert_eq!(u32_string(0), "0");
    assert_eq!(u32_string(7), "7");
    assert_eq!(u32_string(2026), "2026");
    assert_eq!(u32_string(u32::MAX), "4294967295");
    assert_eq!(i32_string(0), "0");
    assert_eq!(i32_string(42), "42");
    assert_eq!(i32_string(-5), "-5");
    assert_eq!(i32_string(i32::MAX), "2147483647");
    assert_eq!(i32_string(i32::MIN), "-2147483648");
}

#[test]
fn pages_absent_is_empty() {
    assert_eq!(make_pages(&None), "");
}

#[test]
fn pages_single_token() {
    assert_eq!(make_pages(&Some("5".to_string())), " 5,");
}

#[test]
fn pages_range_uses_en_dash() {
    assert_eq!(make_pages(&Some("5-10".to_string())), " 5&ndash;10,");
}

#[test]
fn pages_split_only_at_first_dash() {
    assert_eq!(make_pages(&Some("5-10-12".to_string())), " 5&ndash;10-12,");
    assert_eq!(make_pages(&Some("-7".to_string())), " &ndash;7,");
}

#[test]
fn link_descriptors() {
    let arxiv = render_link(&Link::Arxiv("1234.5678".to_string()));
    assert_eq!(arxiv.label, "[arXiv]");
    assert_eq!(arxiv.url, "https://arxiv.org/abs/1234.5678");

    let pdf = render_link(&Link::Pdf("paper.pdf".to_string()));
    assert_eq!(pdf.label, "[PDF]");
    assert_eq!(pdf.url, "paper.pdf");

    let named = render_link(&Link::Url(UrlLink {
        name: "Code".to_string(),
        url: "https://example.org/code".to_string(),
    }));
    assert_eq!(named.label, "[Code]");
    assert_eq!(named.url, "https://example.org/code");
}

#[test]
fn links_list_rendering() {
    let mut out = String::new();
    write_links(&mut out, &Vec::new());
    assert_eq!(out, "");

    let links = vec![Link::Pdf("p.pdf".to_string()), Link::Arxiv("77.88".to_string())];
    let mut out = String::new();
    write_links(&mut out, &links);
    assert_eq!(
        out,
        "<ul class=\"links\"><li class=\"link_item\"><a class=\"link\" href=\"p.pdf\">[PDF]</a></li><li class=\"link_item\"><a class=\"link\" href=\"https://arxiv.org/abs/77.88\">[arXiv]</a></li></ul>"
    );
}

#[test]
fn author_with_profile_is_linked() {
    let reg = Registry::build(vec![Author {
        name: "A".to_string(),
        url: "https://a.example".to_string(),
    }])
    .unwrap();
    let mut out = String::new();
    write_author(&mut out, &reg, &"A".to_string());
    assert_eq!(
        out,
        "<a class=\"author_link\" href=\"https://a.example\"><span class=\"author\">A</span></a>"
    );
}

#[test]
fn author_without_profile_is_plain() {
    let reg = empty_registry();
    let mut out = String::new();
    write_author(&mut out, &reg, &"A".to_string());
    assert_eq!(out, "<span class=\"author\">A</span>");
}

#[test]
fn one_author_stands_alone() {
    let reg = empty_registry();
    let mut out = String::new();
    write_authors(&mut out, &reg, &vec!["A".to_string()]);
    assert_eq!(out, "<span class=\"author\">A</span>. ");
}

#[test]
fn two_authors_joined_by_and() {
    let reg = empty_registry();
    let mut out = String::new();
    write_authors(&mut out, &reg, &vec!["A".to_string(), "B".to_string()]);
    assert_eq!(
        out,
        "<span class=\"author\">A</span> and <span class=\"author\">B</span>. "
    );
}

#[test]
fn three_authors_use_serial_comma() {
    let reg = empty_registry();
    let mut out = String::new();
    write_authors(
        &mut out,
        &reg,
        &vec!["A".to_string(), "B".to_string(), "C".to_string()],
    );
    assert_eq!(
        out,
        "<span class=\"author\">A</span>, <span class=\"author\">B</span>, and <span class=\"author\">C</span>. "
    );
}

#[test]
fn four_authors_generalize() {
    let reg = empty_registry();
    let mut out = String::new();
    write_authors(
        &mut out,
        &reg,
        &vec![
            "A".to_string(),
            "B".to_string(),
            "C".to_string(),
            "D".to_string(),
        ],
    );
    assert_eq!(
        out,
        "<span class=\"author\">A</span>, <span class=\"author\">B</span>, <span class=\"author\">C</span>, and <span class=\"author\">D</span>. "
    );
}

#[test]
fn title_location_note_clauses() {
    let mut out = String::new();
    write_title(&mut out, "T");
    assert_eq!(out, "<span class=\"title\">T</span>. ");

    let mut out = String::new();
    write_location(&mut out, "L");
    assert_eq!(out, "<span class=\"location\">L</span>.");

    let mut out = String::new();
    write_note(&mut out, &Some("N".to_string()));
    assert_eq!(out, " <span class=\"note\">N</span>.");

    let mut out = String::new();
    write_note(&mut out, &None);
    assert_eq!(out, "");
}

#[test]
fn in_proceedings_citation() {
    let reg = empty_registry();
    let publ = InProceedings {
        authors: vec!["A".to_string()],
        title: "T".to_string(),
        booktitle: "B".to_string(),
        pages: Some("1-2".to_string()),
        year: 2020,
        note: None,
        links: Vec::new(),
    };
    let mut out = String::new();
    write_in_proceedings(&mut out, &reg, &publ);
    assert_eq!(
        out,
        "<span class=\"author\">A</span>. <span class=\"title\">T</span>. <span class=\"location\">In proceedings of B, 1&ndash;2, 2020</span>."
    );
}

#[test]
fn journal_article_with_volume_and_number() {
    let reg = empty_registry();
    let publ = JournalArticle {
        authors: vec!["A".to_string()],
        title: "T".to_string(),
        journal: "J".to_string(),
        year: 2021,
        volume: Some(4),
        number: Some(3),
        month: None,
        pages: None,
        note: None,
        links: Vec::new(),
    };
    let mut out = String::new();
    write_journal_article(&mut out, &reg, &publ);
    assert_eq!(
        out,
        "<span class=\"author\">A</span>. <span class=\"title\">T</span>. <span class=\"location\">In J 4(3), 2021</span>."
    );
}

#[test]
fn journal_number_without_volume_is_dropped() {
    let reg = empty_registry();
    let publ = JournalArticle {
        authors: vec!["A".to_string()],
        title: "T".to_string(),
        journal: "J".to_string(),
        year: 2021,
        volume: None,
        number: Some(3),
        month: None,
        pages: None,
        note: None,
        links: Vec::new(),
    };
    let mut out = String::new();
    write_journal_article(&mut out, &reg, &publ);
    assert_eq!(
        out,
        "<span class=\"author\">A</span>. <span class=\"title\">T</span>. <span class=\"location\">In J, 2021</span>."
    );
}

#[test]
fn journal_article_with_pages_and_month() {
    let reg = empty_registry();
    let publ = JournalArticle {
        authors: vec!["A".to_string()],
        title: "T".to_string(),
        journal: "J".to_string(),
        year: 2021,
        volume: Some(4),
        number: None,
        month: Some("May".to_string()),
        pages: Some("5".to_string()),
        note: None,
        links: Vec::new(),
    };
    let mut out = String::new();
    write_journal_article(&mut out, &reg, &publ);
    assert_eq!(
        out,
        "<span class=\"author\">A</span>. <span class=\"title\">T</span>. <span class=\"location\">In J 4,  5,May 2021</span>."
    );
}

#[test]
fn masters_thesis_citation() {
    let reg = empty_registry();
    let publ = MastersThesis {
        authors: vec!["A".to_string()],
        title: "T".to_string(),
        school: "S".to_string(),
        year: 2019,
        note: Some("Best thesis".to_string()),
        links: Vec::new(),
    };
    let mut out = String::new();
    write_masters_thesis(&mut out, &reg, &publ);
    assert_eq!(
        out,
        "<span class=\"author\">A</span>. <span class=\"title\">T</span>. <span class=\"location\">Master's thesis, S, 2019</span>. <span class=\"note\">Best thesis</span>."
    );
}

#[test]
fn technical_report_citation() {
    let reg = empty_registry();
    let publ = TechnicalReport {
        authors: vec!["A".to_string()],
        title: "T".to_string(),
        institution: "I".to_string(),
        number: "N-9".to_string(),
        year: 2018,
        note: None,
        links: Vec::new(),
    };
    let mut out = String::new();
    write_technical_report(&mut out, &reg, &publ);
    assert_eq!(
        out,
        "<span class=\"author\">A</span>. <span class=\"title\">T</span>. <span class=\"location\">Technical report N-9, I, 2018</span>."
    );
}

#[test]
fn publication_entry_wraps_list_item() {
    let reg = empty_registry();
    let publ = Publication::MastersThesis(MastersThesis {
        authors: vec!["A".to_string()],
        title: "T".to_string(),
        school: "S".to_string(),
        year: 2019,
        note: None,
        links: Vec::new(),
    });
    let mut out = String::new();
    write_publication(&mut out, &reg, &publ);
    assert_eq!(
        out,
        "        <li class=\"entry\"><span class=\"author\">A</span>. <span class=\"title\">T</span>. <span class=\"location\">Master's thesis, S, 2019</span>.</li>\n"
    );
}
