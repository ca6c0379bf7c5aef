use publications::arrange::{arrange, group_by_year, sort_by_year_desc, year_index, YearGroup};
use publications::model::{HasYear, MastersThesis, Publication};

fn thesis(title: &str, year: u32) -> Publication {
    Publication::MastersThesis(MastersThesis {
        authors: vec!["A".to_string()],
        title: title.to_string(),
        school: "S".to_string(),
        year,
        note: None,
        links: Vec::new(),
    })
}

fn title_of(p: &Publication) -> &str {
    match p {
        Publication::MastersThesis(t) => &t.title,
        _ => panic!("unexpected kind"),
    }
}

#[test]
fn get_year_is_uniform() {
    let p = thesis("t", 2004);
    assert_eq!(p.get_year(), 2004);
}

#[test]
fn sort_is_descending_and_stable() {
    let mut pubs = vec![
        thesis("a", 2020),
        thesis("b", 2019),
        thesis("c", 2020),
        thesis("d", 2021),
    ];
    sort_by_year_desc(&mut pubs);
    let titles: Vec<&str> = pubs.iter().map(title_of).collect();
    assert_eq!(titles, vec!["d", "a", "c", "b"]);
}

#[test]
fn empty_input_yields_empty_listing() {
    let groups = arrange(Vec::new());
    assert!(groups.is_empty());
    let years = year_index(&Vec::new());
    assert!(years.is_empty());
}

#[test]
fn grouping_collects_adjacent_runs() {
    let pubs = vec![thesis("a", 2020), thesis("b", 2020), thesis("c", 2019)];
    let groups = group_by_year(pubs);
    assert_eq!(groups.len(), 2);
    assert_eq!(groups[0].year, 2020);
    assert_eq!(groups[0].items.len(), 2);
    assert_eq!(groups[1].year, 2019);
    assert_eq!(groups[1].items.len(), 1);
}

#[test]
fn arrange_preserves_input_order_within_a_year() {
    let pubs = vec![thesis("p0", 2020), thesis("p1", 2019), thesis("p2", 2020)];
    let groups = arrange(pubs);
    assert_eq!(groups.len(), 2);
    assert_eq!(groups[0].year, 2020);
    let first: Vec<&str> = groups[0].items.iter().map(title_of).collect();
    assert_eq!(first, vec!["p0", "p2"]);
    assert_eq!(groups[1].year, 2019);
    let second: Vec<&str> = groups[1].items.iter().map(title_of).collect();
    assert_eq!(second, vec!["p1"]);
}

#[test]
fn arrange_is_idempotent_on_arranged_input() {
    let pubs = vec![
        thesis("a", 2003),
        thesis("b", 2007),
        thesis("c", 2003),
        thesis("d", 2011),
        thesis("e", 2007),
    ];
    let once: Vec<YearGroup> = arrange(pubs);
    let flattened: Vec<Publication> = once
        .iter()
        .flat_map(|g| g.items.iter().cloned())
        .collect();
    let twice = arrange(flattened);
    assert_eq!(once, twice);
}

#[test]
fn year_index_is_distinct_and_descending() {
    let mut pubs = vec![
        thesis("a", 2020),
        thesis("b", 2019),
        thesis("c", 2020),
        thesis("d", 2022),
        thesis("e", 2019),
    ];
    sort_by_year_desc(&mut pubs);
    let years = year_index(&pubs);
    assert_eq!(years, vec![2022, 2020, 2019]);
    for w in years.windows(2) {
        assert!(w[0] > w[1]);
    }
}
