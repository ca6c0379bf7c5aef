//! The document renderer: the fixed page chrome, the year navigation bar,
//! and the year-grouped listing of formatted citations.
use vstd::prelude::*;

use crate::arrange::{
    arranged, group_years, groups_of, lemma_groups_split, run_end, sort_by_year_desc, sort_desc,
    year_index,
};
use crate::citation::{entry_html, write_publication};
use crate::model::{year_of, HasYear, Publication};
use crate::numfmt::{dec_str, u32_string};
use crate::registry::Registry;

verus! {

/// The opening of the page.
pub open spec fn head_text() -> Seq<char> {
    "<!DOCTYPE html>\n<html lang=\"en\">\n"@
}

/// The closing of the page.
pub open spec fn tail_text() -> Seq<char> {
    "      </ul>\n    </div>\n  </body>\n</html>\n"@
}

/// The page header: title, icon, fonts and stylesheet.
pub open spec fn header_text() -> Seq<char> {
    "  <head>\n    <title>Kevin Waugh's Publications</title>\n    <link rel=\"shortcut icon\" href=\"favicon.png\" type=\"image/x-icon\">\n    <meta charset=\"utf-8\">\n    <link href=\"https://fonts.googleapis.com/css?family=Lato\" rel=\"stylesheet\">\n    <link rel=\"stylesheet\" type=\"text/css\" href=\"publications.css\">\n  </head>\n  <body>\n    <div class=\"content\">\n"@
}

/// Appends the opening of the page.
pub fn write_head(out: &mut String)
    ensures
        final(out)@ == old(out)@ + head_text(),
{
    out.append("<!DOCTYPE html>\n<html lang=\"en\">\n");
}

/// Appends the closing of the page.
pub fn write_tail(out: &mut String)
    ensures
        final(out)@ == old(out)@ + tail_text(),
{
    out.append("      </ul>\n    </div>\n  </body>\n</html>\n");
}

/// Appends the page header.
pub fn write_header(out: &mut String)
    ensures
        final(out)@ == old(out)@ + header_text(),
{
    out.append(
        "  <head>\n    <title>Kevin Waugh's Publications</title>\n    <link rel=\"shortcut icon\" href=\"favicon.png\" type=\"image/x-icon\">\n    <meta charset=\"utf-8\">\n    <link href=\"https://fonts.googleapis.com/css?family=Lato\" rel=\"stylesheet\">\n    <link rel=\"stylesheet\" type=\"text/css\" href=\"publications.css\">\n  </head>\n  <body>\n    <div class=\"content\">\n",
    );
}

/// One navigation entry: the first year stands alone, every later year
/// comes behind a separator bar.
pub open spec fn navbar_item(y: u32, first: bool) -> Seq<char> {
    if first {
        "        <li><a href=\"#"@ + dec_str(y as nat) + "\">"@ + dec_str(y as nat) + "</a></li>\n"@
    } else {
        "        <li>| <a href=\"#"@ + dec_str(y as nat) + "\">"@ + dec_str(y as nat)
            + "</a></li>\n"@
    }
}

/// The first `k` navigation entries.
pub open spec fn navbar_items(years: Seq<u32>, k: int) -> Seq<char>
    decreases k,
{
    if k <= 0 {
        Seq::empty()
    } else {
        navbar_items(years, k - 1) + navbar_item(years[k - 1], k - 1 == 0)
    }
}

/// The navigation bar: one entry per year, a fixed external entry, then the
/// opening of the entries list.
pub open spec fn navbar_text(years: Seq<u32>) -> Seq<char> {
    "      <ul class=\"navbar\">\n"@ + navbar_items(years, years.len() as int)
        + "        <li>| <a href=\"https://scholar.google.com/citations?hl=en&user=l5ryKEkAAAAJ\">Scholar</a></li>\n"@
        + "      </ul>\n"@ + "      <ul class=\"entries\">\n"@
}

/// Appends the navigation bar over the given years.
pub fn write_navbar(out: &mut String, years: &Vec<u32>)
    ensures
        final(out)@ == old(out)@ + navbar_text(years@),
{
    out.append("      <ul class=\"navbar\">\n");
    let n = years.len();
    let mut i: usize = 0;
    while i < n
        invariant
            n == years@.len(),
            i <= n,
            out@ == old(out)@ + "      <ul class=\"navbar\">\n"@ + navbar_items(years@, i as int),
        decreases n - i,
    {
        let y = u32_string(years[i]);
        if i == 0 {
            out.append("        <li><a href=\"#");
        } else {
            out.append("        <li>| <a href=\"#");
        }
        out.append(y.as_str());
        out.append("\">");
        out.append(y.as_str());
        out.append("</a></li>\n");
        proof {
            assert(out@ =~= old(out)@ + "      <ul class=\"navbar\">\n"@ + navbar_items(
                years@,
                i as int + 1,
            ));
        }
        i += 1;
    }
    out.append(
        "        <li>| <a href=\"https://scholar.google.com/citations?hl=en&user=l5ryKEkAAAAJ\">Scholar</a></li>\n",
    );
    out.append("      </ul>\n");
    out.append("      <ul class=\"entries\">\n");
    proof {
        assert(out@ =~= old(out)@ + navbar_text(years@));
    }
}

/// The heading that opens one year's section.
pub open spec fn year_header_text(y: u32) -> Seq<char> {
    "        <h2 class=\"year\" id=\""@ + dec_str(y as nat) + "\">"@ + dec_str(y as nat)
        + "</h2>\n"@
}

/// Appends one year heading.
pub fn write_year_header(out: &mut String, year: u32)
    ensures
        final(out)@ == old(out)@ + year_header_text(year),
{
    let y = u32_string(year);
    out.append("        <h2 class=\"year\" id=\"");
    out.append(y.as_str());
    out.append("\">");
    out.append(y.as_str());
    out.append("</h2>\n");
    proof {
        assert(out@ =~= old(out)@ + year_header_text(year));
    }
}

/// The entries of one group, in order.
pub open spec fn entries_html(m: Map<Seq<char>, Seq<char>>, ps: Seq<Publication>) -> Seq<char>
    decreases ps.len(),
{
    if ps.len() == 0 {
        Seq::empty()
    } else {
        entry_html(m, ps[0]) + entries_html(m, ps.skip(1))
    }
}

/// One year's section: its heading, then its entries.
pub open spec fn group_html(m: Map<Seq<char>, Seq<char>>, g: (u32, Seq<Publication>)) -> Seq<
    char,
> {
    year_header_text(g.0) + entries_html(m, g.1)
}

/// The sections of the groups, in order.
pub open spec fn groups_html(
    m: Map<Seq<char>, Seq<char>>,
    gs: Seq<(u32, Seq<Publication>)>,
) -> Seq<char>
    decreases gs.len(),
{
    if gs.len() == 0 {
        Seq::empty()
    } else {
        group_html(m, gs[0]) + groups_html(m, gs.skip(1))
    }
}

/// The listing of a publication sequence: one section per maximal
/// contiguous equal-year run, in sequence order.
pub open spec fn publications_html(m: Map<Seq<char>, Seq<char>>, s: Seq<Publication>) -> Seq<
    char,
> {
    groups_html(m, groups_of(s))
}

/// Entries distribute over concatenation.
proof fn lemma_entries_html_concat(
    m: Map<Seq<char>, Seq<char>>,
    a: Seq<Publication>,
    b: Seq<Publication>,
)
    ensures
        entries_html(m, a + b) == entries_html(m, a) + entries_html(m, b),
    decreases a.len(),
{
    if a.len() == 0 {
        assert(a + b =~= b);
        assert(entries_html(m, a) + entries_html(m, b) =~= entries_html(m, b));
    } else {
        assert((a + b)[0] == a[0]);
        assert((a + b).skip(1) =~= a.skip(1) + b);
        lemma_entries_html_concat(m, a.skip(1), b);
        assert(entries_html(m, a + b) =~= entries_html(m, a) + entries_html(m, b));
    }
}

/// Appends the whole listing: for each maximal equal-year run a year
/// heading, then that run's formatted entries in order.
pub fn write_publications(out: &mut String, registry: &Registry, pubs: &Vec<Publication>)
    requires
        registry.wf(),
    ensures
        final(out)@ == old(out)@ + publications_html(registry@, pubs@),
{
    let n = pubs.len();
    let mut pos: usize = 0;
    proof {
        assert(pubs@.subrange(0, n as int) =~= pubs@);
    }
    while pos < n
        invariant
            n == pubs@.len(),
            pos <= n,
            registry.wf(),
            out@ + publications_html(registry@, pubs@.subrange(pos as int, n as int)) == old(out)@
                + publications_html(registry@, pubs@),
        decreases n - pos,
    {
        let ghost cur = pubs@.subrange(pos as int, n as int);
        let ghost out0 = out@;
        let y = pubs[pos].get_year();
        write_year_header(out, y);
        let ghost base = out@;
        let r = run_end(pubs, pos);
        let mut k = pos;
        proof {
            assert(pubs@.subrange(pos as int, pos as int) =~= Seq::<Publication>::empty());
        }
        while k < r
            invariant
                pos <= k <= r <= n,
                n == pubs@.len(),
                registry.wf(),
                out@ == base + entries_html(registry@, pubs@.subrange(pos as int, k as int)),
            decreases r - k,
        {
            write_publication(out, registry, &pubs[k]);
            proof {
                let pre = pubs@.subrange(pos as int, k as int);
                let one = seq![pubs@[k as int]];
                assert(pubs@.subrange(pos as int, k as int + 1) =~= pre + one);
                lemma_entries_html_concat(registry@, pre, one);
                assert(one.skip(1) =~= Seq::<Publication>::empty());
                assert(entries_html(registry@, Seq::<Publication>::empty()) =~= Seq::<
                    char,
                >::empty());
                assert(entries_html(registry@, one) =~= entry_html(registry@, pubs@[k as int]));
                assert(out@ =~= base + entries_html(
                    registry@,
                    pubs@.subrange(pos as int, k as int + 1),
                ));
            }
            k += 1;
        }
        proof {
            assert forall|k2: int| 0 <= k2 < r - pos implies #[trigger] year_of(cur[k2]) == year_of(
                cur[0],
            ) by {
                assert(cur[k2] == pubs@[k2 + pos]);
                assert(cur[0] == pubs@[pos as int]);
            }
            if r < n {
                assert(cur[r - pos] == pubs@[r as int]);
            }
            assert(cur[0] == pubs@[pos as int]);
            lemma_groups_split(cur, r - pos);
            let g0 = (y, cur.subrange(0, r - pos));
            let gs = groups_of(cur);
            assert(gs == seq![g0] + groups_of(cur.subrange(r - pos, cur.len() as int)));
            assert(gs[0] == g0);
            assert(gs.skip(1) =~~= groups_of(cur.subrange(r - pos, cur.len() as int)));
            assert(groups_html(registry@, gs) == group_html(registry@, g0) + groups_html(
                registry@,
                groups_of(cur.subrange(r - pos, cur.len() as int)),
            ));
            assert(cur.subrange(0, r - pos) =~= pubs@.subrange(pos as int, r as int));
            assert(cur.subrange(r - pos, cur.len() as int) =~= pubs@.subrange(r as int, n as int));
            assert(out@ =~= out0 + group_html(registry@, g0));
            assert(out@ + publications_html(registry@, pubs@.subrange(r as int, n as int)) =~= old(
                out,
            )@ + publications_html(registry@, pubs@));
        }
        pos = r;
    }
    proof {
        assert(pubs@.subrange(pos as int, n as int) =~= Seq::<Publication>::empty());
        assert(out@ + publications_html(registry@, Seq::<Publication>::empty()) =~= out@);
    }
}

/// The whole document over the arranged listing: chrome, navigation index,
/// then the year-grouped citations.
pub open spec fn document_text(m: Map<Seq<char>, Seq<char>>, s: Seq<Publication>) -> Seq<char> {
    head_text() + header_text() + navbar_text(group_years(arranged(s))) + publications_html(
        m,
        sort_desc(s),
    ) + tail_text()
}

/// Renders the full listing: sorts and groups the publications, then emits
/// the page around the navigation index and the formatted citations.
pub fn render_document(registry: &Registry, pubs: Vec<Publication>) -> (doc: String)
    requires
        registry.wf(),
    ensures
        doc@ == document_text(registry@, pubs@),
{
    let mut sorted = pubs;
    sort_by_year_desc(&mut sorted);
    let years = year_index(&sorted);
    let mut out = String::new();
    write_head(&mut out);
    write_header(&mut out);
    write_navbar(&mut out, &years);
    write_publications(&mut out, registry, &sorted);
    write_tail(&mut out);
    proof {
        assert(out@ =~= document_text(registry@, pubs@));
    }
    out
}

} // verus!
