//! The citation formatter: for one publication it assembles the authors
//! clause, the title clause, the kind-specific location clause, the optional
//! note clause and the links list, each pinned down by a spec function over
//! character sequences.
use vstd::prelude::*;

use crate::model::{InProceedings, JournalArticle, Link, MastersThesis, Publication, TechnicalReport};
use crate::numfmt::{dec_str, int_dec_str, u32_string, i32_string};
use crate::registry::Registry;

verus! {

// ---------------------------------------------------------------------------
// Page ranges
// ---------------------------------------------------------------------------
/// The index of the first `'-'` in `s`, or `s.len()` when there is none.
pub open spec fn split_pos(s: Seq<char>) -> int
    decreases s.len(),
{
    if s.len() == 0 {
        0
    } else if s[0] == '-' {
        0
    } else {
        1 + split_pos(s.skip(1))
    }
}

/// What a pages field contributes to a location clause: nothing when absent;
/// `" {token},"` for a single token; `" {first}&ndash;{last},"` when the
/// token splits at its first `'-'` (any later `'-'` stays in `last`).
pub open spec fn pages_clause(pages: Option<String>) -> Seq<char> {
    match pages {
        Option::None => Seq::empty(),
        Option::Some(p) => {
            let i = split_pos(p@);
            if i == p@.len() {
                " "@ + p@ + ","@
            } else {
                " "@ + p@.subrange(0, i) + "&ndash;"@ + p@.subrange(i + 1, p@.len() as int) + ","@
            }
        },
    }
}

/// `split_pos` is the position of the first `'-'`: nothing before `i` is a
/// dash, and `i` is either a dash or the end.
proof fn lemma_split_pos_at(s: Seq<char>, i: int)
    requires
        0 <= i <= s.len(),
        forall|k: int| 0 <= k < i ==> s[k] != '-',
        i == s.len() || s[i] == '-',
    ensures
        split_pos(s) == i,
    decreases s.len(),
{
    if s.len() == 0 {
    } else if s[0] == '-' {
    } else {
        assert forall|k: int| 0 <= k < i - 1 implies s.skip(1)[k] != '-' by {
            assert(s.skip(1)[k] == s[k + 1]);
        }
        if i < s.len() {
            assert(s.skip(1)[i - 1] == s[i]);
        }
        lemma_split_pos_at(s.skip(1), i - 1);
    }
}

/// Finds the first `'-'`, returning the string's length when there is none.
fn find_dash(s: &str) -> (r: usize)
    ensures
        r as int == split_pos(s@),
        r <= s@.len(),
{
    let n = s.unicode_len();
    let mut i: usize = 0;
    while i < n
        invariant
            n == s@.len(),
            i <= n,
            forall|k: int| 0 <= k < i ==> s@[k] != '-',
        decreases n - i,
    {
        if s.get_char(i) == '-' {
            proof {
                lemma_split_pos_at(s@, i as int);
            }
            return i;
        }
        i += 1;
    }
    proof {
        lemma_split_pos_at(s@, i as int);
    }
    i
}

/// Renders the page-range contribution of a pages field.
pub fn make_pages(pages: &Option<String>) -> (r: String)
    ensures
        r@ == pages_clause(*pages),
{
    match pages {
        None => String::new(),
        Some(p) => {
            let s: &str = p.as_str();
            let n = s.unicode_len();
            let i = find_dash(s);
            let mut out = " ".to_owned();
            if i < n {
                out.append(s.substring_char(0, i));
                out.append("&ndash;");
                out.append(s.substring_char(i + 1, n));
            } else {
                out.append(s);
            }
            out.append(",");
            proof {
                assert(out@ =~= pages_clause(*pages));
            }
            out
        },
    }
}

// ---------------------------------------------------------------------------
// Links
// ---------------------------------------------------------------------------
/// The anchor text of a link: a fixed label for the two fixed kinds, the
/// stored name in brackets for a named URL.
pub open spec fn link_label(l: Link) -> Seq<char> {
    match l {
        Link::Arxiv(_) => "[arXiv]"@,
        Link::Pdf(_) => "[PDF]"@,
        Link::Url(u) => "["@ + u.name@ + "]"@,
    }
}

/// The target of a link: the preprint archive page for an identifier, the
/// stored URL otherwise.
pub open spec fn link_target(l: Link) -> Seq<char> {
    match l {
        Link::Arxiv(id) => "https://arxiv.org/abs/"@ + id@,
        Link::Pdf(url) => url@,
        Link::Url(u) => u.url@,
    }
}

/// A renderable link: anchor text plus target URL.
#[derive(Debug, Clone, PartialEq, Eq)]
pub struct LinkDescriptor {
    pub label: String,
    pub url: String,
}

/// Converts one link into its renderable descriptor. Pure and total.
pub fn render_link(link: &Link) -> (d: LinkDescriptor)
    ensures
        d.label@ == link_label(*link),
        d.url@ == link_target(*link),
{
    match link {
        Link::Arxiv(id) => {
            let mut url = "https://arxiv.org/abs/".to_owned();
            url.append(id.as_str());
            LinkDescriptor { label: "[arXiv]".to_owned(), url }
        },
        Link::Pdf(url) => LinkDescriptor { label: "[PDF]".to_owned(), url: url.clone() },
        Link::Url(u) => {
            let mut label = "[".to_owned();
            label.append(u.name.as_str());
            label.append("]");
            proof {
                assert(label@ =~= link_label(*link));
            }
            LinkDescriptor { label, url: u.url.clone() }
        },
    }
}

/// One link as it stands in the links list.
pub open spec fn link_html(l: Link) -> Seq<char> {
    "<li class=\"link_item\"><a class=\"link\" href=\""@ + link_target(l) + "\">"@ + link_label(l)
        + "</a></li>"@
}

/// The first `k` list items of the links list.
pub open spec fn links_prefix(links: Seq<Link>, k: int) -> Seq<char>
    decreases k,
{
    if k <= 0 {
        Seq::empty()
    } else {
        links_prefix(links, k - 1) + link_html(links[k - 1])
    }
}

/// The links list: an ordered list in input order, or nothing when there are
/// no links.
pub open spec fn links_list(links: Seq<Link>) -> Seq<char> {
    if links.len() == 0 {
        Seq::empty()
    } else {
        "<ul class=\"links\">"@ + links_prefix(links, links.len() as int) + "</ul>"@
    }
}

/// Appends the links list to `out`.
pub fn write_links(out: &mut String, links: &Vec<Link>)
    ensures
        final(out)@ == old(out)@ + links_list(links@),
{
    if !links.is_empty() {
        out.append("<ul class=\"links\">");
        let n = links.len();
        let mut i: usize = 0;
        while i < n
            invariant
                n == links@.len(),
                i <= n,
                out@ == old(out)@ + "<ul class=\"links\">"@ + links_prefix(links@, i as int),
            decreases n - i,
        {
            let d = render_link(&links[i]);
            out.append("<li class=\"link_item\"><a class=\"link\" href=\"");
            out.append(d.url.as_str());
            out.append("\">");
            out.append(d.label.as_str());
            out.append("</a></li>");
            proof {
                assert(out@ =~= old(out)@ + "<ul class=\"links\">"@ + links_prefix(
                    links@,
                    i as int + 1,
                ));
            }
            i += 1;
        }
        out.append("</ul>");
        proof {
            assert(out@ =~= old(out)@ + links_list(links@));
        }
    }
}

// ---------------------------------------------------------------------------
// Authors
// ---------------------------------------------------------------------------
/// The rendered form of one author name: a profile link when the registry
/// holds the name, plain styled text otherwise.
pub open spec fn author_html(m: Map<Seq<char>, Seq<char>>, name: Seq<char>) -> Seq<char> {
    if m.contains_key(name) {
        "<a class=\"author_link\" href=\""@ + m[name] + "\"><span class=\"author\">"@ + name
            + "</span></a>"@
    } else {
        "<span class=\"author\">"@ + name + "</span>"@
    }
}

/// What stands before author `i` of `n`: nothing before the first; `", "`
/// between inner authors; and before the last, `" and "` for a pair or the
/// serial `", and "` for three or more.
pub open spec fn author_sep(i: int, n: int) -> Seq<char> {
    if i + 1 == n {
        if n == 1 {
            Seq::empty()
        } else if n == 2 {
            " and "@
        } else {
            ", and "@
        }
    } else if i > 0 {
        ", "@
    } else {
        Seq::empty()
    }
}

/// The enumeration of the first `k` of the authors.
pub open spec fn authors_prefix(m: Map<Seq<char>, Seq<char>>, names: Seq<String>, k: int) -> Seq<
    char,
>
    decreases k,
{
    if k <= 0 {
        Seq::empty()
    } else {
        authors_prefix(m, names, k - 1) + author_sep(k - 1, names.len() as int) + author_html(
            m,
            names[k - 1]@,
        )
    }
}

/// The full authors clause, closed with a period.
pub open spec fn authors_clause(m: Map<Seq<char>, Seq<char>>, names: Seq<String>) -> Seq<char> {
    authors_prefix(m, names, names.len() as int) + ". "@
}

/// Appends one author name, linked to its profile when the registry has one.
pub fn write_author(out: &mut String, registry: &Registry, author: &String)
    requires
        registry.wf(),
    ensures
        final(out)@ == old(out)@ + author_html(registry@, author@),
{
    match registry.lookup(author) {
        Some(url) => {
            out.append("<a class=\"author_link\" href=\"");
            out.append(url.as_str());
            out.append("\"><span class=\"author\">");
            out.append(author.as_str());
            out.append("</span></a>");
        },
        None => {
            out.append("<span class=\"author\">");
            out.append(author.as_str());
            out.append("</span>");
        },
    }
    proof {
        assert(out@ =~= old(out)@ + author_html(registry@, author@));
    }
}

/// Appends the authors clause: one author stands alone, two are joined by
/// `" and "`, three or more are comma-separated with a serial `", and "`.
pub fn write_authors(out: &mut String, registry: &Registry, authors: &Vec<String>)
    requires
        registry.wf(),
    ensures
        final(out)@ == old(out)@ + authors_clause(registry@, authors@),
{
    let n = authors.len();
    let mut i: usize = 0;
    while i < n
        invariant
            n == authors@.len(),
            i <= n,
            registry.wf(),
            out@ == old(out)@ + authors_prefix(registry@, authors@, i as int),
        decreases n - i,
    {
        if i + 1 == n {
            if n == 1 {
            } else if n == 2 {
                out.append(" and ");
            } else {
                out.append(", and ");
            }
        } else if i > 0 {
            out.append(", ");
        }
        write_author(out, registry, &authors[i]);
        proof {
            assert(out@ =~= old(out)@ + authors_prefix(registry@, authors@, i as int + 1));
        }
        i += 1;
    }
    out.append(". ");
    proof {
        assert(out@ =~= old(out)@ + authors_clause(registry@, authors@));
    }
}

// ---------------------------------------------------------------------------
// Title, location, note
// ---------------------------------------------------------------------------
/// The title clause: the styled title, closed with a period.
pub open spec fn title_clause(title: Seq<char>) -> Seq<char> {
    "<span class=\"title\">"@ + title + "</span>. "@
}

/// Appends the title clause.
pub fn write_title(out: &mut String, title: &str)
    ensures
        final(out)@ == old(out)@ + title_clause(title@),
{
    out.append("<span class=\"title\">");
    out.append(title);
    out.append("</span>. ");
    proof {
        assert(out@ =~= old(out)@ + title_clause(title@));
    }
}

/// The location clause: the styled location text, closed with a period.
pub open spec fn location_clause(location: Seq<char>) -> Seq<char> {
    "<span class=\"location\">"@ + location + "</span>."@
}

/// Appends the location clause around an assembled location string.
pub fn write_location(out: &mut String, location: &str)
    ensures
        final(out)@ == old(out)@ + location_clause(location@),
{
    out.append("<span class=\"location\">");
    out.append(location);
    out.append("</span>.");
    proof {
        assert(out@ =~= old(out)@ + location_clause(location@));
    }
}

/// The note clause: nothing when absent, else the styled note after a space,
/// closed with a period.
pub open spec fn note_clause(note: Option<String>) -> Seq<char> {
    match note {
        Option::Some(st) => " <span class=\"note\">"@ + st@ + "</span>."@,
        Option::None => Seq::empty(),
    }
}

/// Appends the note clause, if there is a note.
pub fn write_note(out: &mut String, note: &Option<String>)
    ensures
        final(out)@ == old(out)@ + note_clause(*note),
{
    match note {
        Some(st) => {
            out.append(" <span class=\"note\">");
            out.append(st.as_str());
            out.append("</span>.");
            proof {
                assert(out@ =~= old(out)@ + note_clause(*note));
            }
        },
        None => {},
    }
}

// ---------------------------------------------------------------------------
// The four kinds
// ---------------------------------------------------------------------------
/// The location text of a conference paper.
pub open spec fn in_proceedings_location(p: InProceedings) -> Seq<char> {
    "In proceedings of "@ + p.booktitle@ + ","@ + pages_clause(p.pages) + " "@ + dec_str(
        p.year as nat,
    )
}

/// The location text of a journal article: the volume when present, the
/// issue number only right after a volume, then pages, month and year.
pub open spec fn journal_location(p: JournalArticle) -> Seq<char> {
    "In "@ + p.journal@ + (match p.volume {
        Option::Some(v) => " "@ + int_dec_str(v as int) + (match p.number {
            Option::Some(num) => "("@ + int_dec_str(num as int) + ")"@,
            Option::None => Seq::empty(),
        }),
        Option::None => Seq::empty(),
    }) + ", "@ + pages_clause(p.pages) + (match p.month {
        Option::Some(mo) => mo@ + " "@,
        Option::None => Seq::empty(),
    }) + dec_str(p.year as nat)
}

/// The location text of a master's thesis.
pub open spec fn masters_thesis_location(p: MastersThesis) -> Seq<char> {
    "Master's thesis, "@ + p.school@ + ", "@ + dec_str(p.year as nat)
}

/// The location text of a technical report.
pub open spec fn technical_report_location(p: TechnicalReport) -> Seq<char> {
    "Technical report "@ + p.number@ + ", "@ + p.institution@ + ", "@ + dec_str(p.year as nat)
}

/// The four-part citation body shared by every kind: authors, title,
/// location, optional note, then the links list.
pub open spec fn citation_body(
    m: Map<Seq<char>, Seq<char>>,
    authors: Seq<String>,
    title: String,
    location: Seq<char>,
    note: Option<String>,
    links: Seq<Link>,
) -> Seq<char> {
    authors_clause(m, authors) + title_clause(title@) + location_clause(location) + note_clause(
        note,
    ) + links_list(links)
}

/// The full citation of one publication, by kind.
pub open spec fn citation_html(m: Map<Seq<char>, Seq<char>>, p: Publication) -> Seq<char> {
    match p {
        Publication::InProceedings(t) => citation_body(
            m,
            t.authors@,
            t.title,
            in_proceedings_location(t),
            t.note,
            t.links@,
        ),
        Publication::JournalArticle(t) => citation_body(
            m,
            t.authors@,
            t.title,
            journal_location(t),
            t.note,
            t.links@,
        ),
        Publication::MastersThesis(t) => citation_body(
            m,
            t.authors@,
            t.title,
            masters_thesis_location(t),
            t.note,
            t.links@,
        ),
        Publication::TechnicalReport(t) => citation_body(
            m,
            t.authors@,
            t.title,
            technical_report_location(t),
            t.note,
            t.links@,
        ),
    }
}

/// Appends the citation of a conference paper.
pub fn write_in_proceedings(out: &mut String, registry: &Registry, publ: &InProceedings)
    requires
        registry.wf(),
    ensures
        final(out)@ == old(out)@ + citation_html(registry@, Publication::InProceedings(*publ)),
{
    write_authors(out, registry, &publ.authors);
    write_title(out, &publ.title);
    let mut loc = "In proceedings of ".to_owned();
    loc.append(publ.booktitle.as_str());
    loc.append(",");
    let pg = make_pages(&publ.pages);
    loc.append(pg.as_str());
    loc.append(" ");
    let year = u32_string(publ.year);
    loc.append(year.as_str());
    proof {
        assert(loc@ =~= in_proceedings_location(*publ));
    }
    write_location(out, loc.as_str());
    write_note(out, &publ.note);
    write_links(out, &publ.links);
    proof {
        assert(out@ =~= old(out)@ + citation_html(registry@, Publication::InProceedings(*publ)));
    }
}

/// Appends the citation of a journal article; an issue number without a
/// volume is dropped.
#[verifier::rlimit(60)]
pub fn write_journal_article(out: &mut String, registry: &Registry, publ: &JournalArticle)
    requires
        registry.wf(),
    ensures
        final(out)@ == old(out)@ + citation_html(registry@, Publication::JournalArticle(*publ)),
{
    write_authors(out, registry, &publ.authors);
    write_title(out, &publ.title);
    let mut loc = "In ".to_owned();
    loc.append(publ.journal.as_str());
    if let Some(volume) = publ.volume {
        loc.append(" ");
        let v = i32_string(volume);
        loc.append(v.as_str());
        if let Some(number) = publ.number {
            loc.append("(");
            let num = i32_string(number);
            loc.append(num.as_str());
            loc.append(")");
        }
    }
    loc.append(", ");
    let pg = make_pages(&publ.pages);
    loc.append(pg.as_str());
    if let Some(month) = &publ.month {
        loc.append(month.as_str());
        loc.append(" ");
    }
    let year = u32_string(publ.year);
    loc.append(year.as_str());
    proof {
        assert(loc@ =~= journal_location(*publ));
    }
    write_location(out, loc.as_str());
    write_note(out, &publ.note);
    write_links(out, &publ.links);
    proof {
        assert(out@ =~= old(out)@ + citation_html(registry@, Publication::JournalArticle(*publ)));
    }
}

/// Appends the citation of a master's thesis.
pub fn write_masters_thesis(out: &mut String, registry: &Registry, publ: &MastersThesis)
    requires
        registry.wf(),
    ensures
        final(out)@ == old(out)@ + citation_html(registry@, Publication::MastersThesis(*publ)),
{
    write_authors(out, registry, &publ.authors);
    write_title(out, &publ.title);
    let mut loc = "Master's thesis, ".to_owned();
    loc.append(publ.school.as_str());
    loc.append(", ");
    let year = u32_string(publ.year);
    loc.append(year.as_str());
    proof {
        assert(loc@ =~= masters_thesis_location(*publ));
    }
    write_location(out, loc.as_str());
    write_note(out, &publ.note);
    write_links(out, &publ.links);
    proof {
        assert(out@ =~= old(out)@ + citation_html(registry@, Publication::MastersThesis(*publ)));
    }
}

/// Appends the citation of a technical report.
pub fn write_technical_report(out: &mut String, registry: &Registry, publ: &TechnicalReport)
    requires
        registry.wf(),
    ensures
        final(out)@ == old(out)@ + citation_html(registry@, Publication::TechnicalReport(*publ)),
{
    write_authors(out, registry, &publ.authors);
    write_title(out, &publ.title);
    let mut loc = "Technical report ".to_owned();
    loc.append(publ.number.as_str());
    loc.append(", ");
    loc.append(publ.institution.as_str());
    loc.append(", ");
    let year = u32_string(publ.year);
    loc.append(year.as_str());
    proof {
        assert(loc@ =~= technical_report_location(*publ));
    }
    write_location(out, loc.as_str());
    write_note(out, &publ.note);
    write_links(out, &publ.links);
    proof {
        assert(out@ =~= old(out)@ + citation_html(registry@, Publication::TechnicalReport(*publ)));
    }
}

/// One listing entry: the citation of one publication inside its list item.
pub open spec fn entry_html(m: Map<Seq<char>, Seq<char>>, p: Publication) -> Seq<char> {
    "        <li class=\"entry\">"@ + citation_html(m, p) + "</li>\n"@
}

/// Appends one listing entry, dispatching on the publication's kind.
pub fn write_publication(out: &mut String, registry: &Registry, publ: &Publication)
    requires
        registry.wf(),
    ensures
        final(out)@ == old(out)@ + entry_html(registry@, *publ),
{
    out.append("        <li class=\"entry\">");
    match publ {
        Publication::InProceedings(t) => write_in_proceedings(out, registry, t),
        Publication::JournalArticle(t) => write_journal_article(out, registry, t),
        Publication::MastersThesis(t) => write_masters_thesis(out, registry, t),
        Publication::TechnicalReport(t) => write_technical_report(out, registry, t),
    }
    out.append("</li>\n");
    proof {
        assert(out@ =~= old(out)@ + entry_html(registry@, *publ));
    }
}

/// The author-list enumeration rule, for every author count: one author
/// stands alone; two are joined by `" and "`; three or more end with the
/// serial `", and "` before the last, every earlier neighbour pair joined by
/// `", "`; and the clause always closes with a period.
pub proof fn lemma_authors_enumeration(m: Map<Seq<char>, Seq<char>>, names: Seq<String>)
    ensures
        names.len() == 1 ==> authors_clause(m, names) == author_html(m, names[0]@) + ". "@,
        names.len() == 2 ==> authors_clause(m, names) == author_html(m, names[0]@) + " and "@
            + author_html(m, names[1]@) + ". "@,
        names.len() >= 3 ==> authors_clause(m, names) == authors_prefix(
            m,
            names,
            names.len() - 1,
        ) + ", and "@ + author_html(m, names[names.len() - 1]@) + ". "@,
        forall|k: int|
            1 <= k < names.len() - 1 ==> #[trigger] authors_prefix(m, names, k + 1)
                == authors_prefix(m, names, k) + ", "@ + author_html(m, names[k]@),
        authors_prefix(m, names, 1) == author_html(m, names[0]@) || names.len() < 1,
{
    let n = names.len() as int;
    if n >= 1 {
        assert(authors_prefix(m, names, 0) == Seq::<char>::empty());
        assert(author_sep(0, n) == Seq::<char>::empty());
        assert(authors_prefix(m, names, 1) =~= author_html(m, names[0]@));
    }
    if n == 1 {
        assert(authors_clause(m, names) =~= author_html(m, names[0]@) + ". "@);
    }
    if n == 2 {
        assert(authors_prefix(m, names, 2) =~= author_html(m, names[0]@) + " and "@ + author_html(
            m,
            names[1]@,
        ));
        assert(authors_clause(m, names) =~= author_html(m, names[0]@) + " and "@ + author_html(
            m,
            names[1]@,
        ) + ". "@);
    }
    if n >= 3 {
        assert(author_sep(n - 1, n) == ", and "@);
        assert(authors_clause(m, names) =~= authors_prefix(m, names, n - 1) + ", and "@
            + author_html(m, names[n - 1]@) + ". "@);
    }
    assert forall|k: int| 1 <= k < n - 1 implies #[trigger] authors_prefix(m, names, k + 1)
        == authors_prefix(m, names, k) + ", "@ + author_html(m, names[k]@) by {
        assert(author_sep(k, n) == ", "@);
    }
}

/// An issue number without a volume leaves no trace in the location clause.
pub proof fn lemma_number_without_volume_dropped(p: JournalArticle)
    requires
        p.volume is None,
    ensures
        journal_location(p) == journal_location(JournalArticle { number: None, ..p }),
{
}

} // verus!
