use vstd::prelude::*;
use vstd::string::StringExecFns;
use crate::counter::Counts;
use crate::lang_detect::LangInfo;
use crate::lang_detect::Percent;
use crate::lang_detect::pct_wf;
use crate::text::views_of;
use crate::text::dec_str;
use crate::text::push_dec;

verus! {

/// The header cells rendered for the document names, each in its own
/// `<th>` element.
pub open spec fn th_cells(names: Seq<Seq<char>>) -> Seq<char>
    decreases names.len(),
{
    if names.len() == 0 {
        Seq::empty()
    } else {
        th_cells(names.drop_last()) + "\n        <th style=\"text-align:center\">"@
            + names.last() + "</th>"@
    }
}

/// The data cells of one row, each in its own `<td>` element.
pub open spec fn td_cells(cells: Seq<Seq<char>>) -> Seq<char>
    decreases cells.len(),
{
    if cells.len() == 0 {
        Seq::empty()
    } else {
        td_cells(cells.drop_last()) + "\n        <td style=\"text-align:right\">"@
            + cells.last() + "</td>"@
    }
}

/// The word-count cell contents, one per document.
pub open spec fn word_cells(cs: Seq<Counts>) -> Seq<Seq<char>> {
    cs.map_values(|c: Counts| dec_str(c.word_count as int))
}

/// The unique-word cell contents, one per document.
pub open spec fn unique_cells(cs: Seq<Counts>) -> Seq<Seq<char>> {
    cs.map_values(|c: Counts| dec_str(c.unique_word_count as int))
}

/// The line-count cell contents, one per document.
pub open spec fn line_cells(cs: Seq<Counts>) -> Seq<Seq<char>> {
    cs.map_values(|c: Counts| dec_str(c.line_count as int))
}

/// The full statistics table: a heading, a style block, a header row of the
/// document names, and one data row for each of the three metrics.
pub open spec fn spec_html_table(cs: Seq<Counts>, names: Seq<Seq<char>>) -> Seq<char> {
    "<h3>Data statistics of the text file(s)</h3>"@
        + "\n    <style>\n    table {\n        border: 1px solid black;\n        border-collapse: collapse;\n    }\n    th, td {\n      border: 1px solid black;\n      padding: 8px;\n    }\n    </style>"@
        + "\n    <table>\n    "@
        + "\n    <tr class=\"bordered-table\">\n    <th style=\"text-align:center\">Counts</th>\n    "@
        + th_cells(names) + "</tr>"@
        + "\n    <tr>\n    <td style=\"text-align:center\">Word Count</td>\n    "@ + td_cells(
        word_cells(cs),
    ) + "</tr>"@ + "\n    <tr>\n    <td style=\"text-align:center\">Unique Words</td>\n    "@
        + td_cells(unique_cells(cs)) + "</tr>"@
        + "\n    <tr>\n    <td style=\"text-align:center\">Line Count</td>\n    "@ + td_cells(
        line_cells(cs),
    ) + "</tr>"@ + "\n    </table>\n    "@
}

/// The cell contents of the header row: the metric label followed by one
/// name per document.
pub open spec fn header_cells(names: Seq<Seq<char>>) -> Seq<Seq<char>> {
    seq!["Counts"@] + names
}

/// The cell contents of the three data rows: each a metric label followed
/// by one value per document.
pub open spec fn table_rows(cs: Seq<Counts>) -> Seq<Seq<Seq<char>>> {
    seq![
        seq!["Word Count"@] + word_cells(cs),
        seq!["Unique Words"@] + unique_cells(cs),
        seq!["Line Count"@] + line_cells(cs),
    ]
}

/// Table shape: over `m` documents the header row holds `m + 1` cells — the
/// metric label plus one per document — and there are exactly three data
/// rows (word count, unique words, line count), each again of `m + 1`
/// cells.
pub proof fn lemma_table_shape(cs: Seq<Counts>, names: Seq<Seq<char>>)
    requires
        cs.len() == names.len(),
    ensures
        header_cells(names).len() == names.len() + 1,
        table_rows(cs).len() == 3,
        forall|i: int|
            0 <= i < 3 ==> #[trigger] table_rows(cs)[i].len() == names.len() + 1,
{
    assert forall|i: int| 0 <= i < 3 implies #[trigger] table_rows(cs)[i].len() == names.len()
        + 1 by {
        if i == 0 {
        } else if i == 1 {
        } else {
        }
    }
}

/// Renders the statistics table of `spec_html_table`: one column per
/// document in input order, one row per metric.
pub fn generate_html_table(count: &[Counts], file_names: &[String]) -> (r: String)
    ensures
        r@ == spec_html_table(count@, views_of(file_names@)),
{
    let ghost cs = count@;
    let ghost nv = views_of(file_names@);
    let mut html = String::new();
    html.append("<h3>Data statistics of the text file(s)</h3>");
    html.append(
        "\n    <style>\n    table {\n        border: 1px solid black;\n        border-collapse: collapse;\n    }\n    th, td {\n      border: 1px solid black;\n      padding: 8px;\n    }\n    </style>",
    );
    html.append("\n    <table>\n    ");
    html.append("\n    <tr class=\"bordered-table\">\n    <th style=\"text-align:center\">Counts</th>\n    ");
    let ghost base = html@;
    let mut i: usize = 0;
    while i < file_names.len()
        invariant
            i <= nv.len(),
            nv == views_of(file_names@),
            html@ == base + th_cells(nv.take(i as int)),
        decreases nv.len() - i,
    {
        html.append("\n        <th style=\"text-align:center\">");
        html.append(file_names[i].as_str());
        html.append("</th>");
        proof {
            assert(nv[i as int] == file_names@[i as int]@);
            assert(nv.take(i + 1).drop_last() =~= nv.take(i as int));
            assert(nv.take(i + 1).last() == nv[i as int]);
            assert(html@ =~= base + th_cells(nv.take(i + 1)));
        }
        i = i + 1;
    }
    proof {
        assert(nv.take(nv.len() as int) =~= nv);
    }
    html.append("</tr>");
    html.append("\n    <tr>\n    <td style=\"text-align:center\">Word Count</td>\n    ");
    let ghost base2 = html@;
    let mut i: usize = 0;
    while i < count.len()
        invariant
            i <= cs.len(),
            cs == count@,
            html@ == base2 + td_cells(word_cells(cs).take(i as int)),
        decreases cs.len() - i,
    {
        html.append("\n        <td style=\"text-align:right\">");
        push_dec(&mut html, count[i].word_count as u128);
        html.append("</td>");
        proof {
            assert(word_cells(cs)[i as int] == dec_str(cs[i as int].word_count as int));
            assert(word_cells(cs).take(i + 1).drop_last() =~= word_cells(cs).take(i as int));
            assert(word_cells(cs).take(i + 1).last() == word_cells(cs)[i as int]);
            assert(html@ =~= base2 + td_cells(word_cells(cs).take(i + 1)));
        }
        i = i + 1;
    }
    proof {
        assert(word_cells(cs).take(cs.len() as int) =~= word_cells(cs));
    }
    html.append("</tr>");
    html.append("\n    <tr>\n    <td style=\"text-align:center\">Unique Words</td>\n    ");
    let ghost base3 = html@;
    let mut i: usize = 0;
    while i < count.len()
        invariant
            i <= cs.len(),
            cs == count@,
            html@ == base3 + td_cells(unique_cells(cs).take(i as int)),
        decreases cs.len() - i,
    {
        html.append("\n        <td style=\"text-align:right\">");
        push_dec(&mut html, count[i].unique_word_count as u128);
        html.append("</td>");
        proof {
            assert(unique_cells(cs)[i as int] == dec_str(cs[i as int].unique_word_count as int));
            assert(unique_cells(cs).take(i + 1).drop_last() =~= unique_cells(cs).take(i as int));
            assert(unique_cells(cs).take(i + 1).last() == unique_cells(cs)[i as int]);
            assert(html@ =~= base3 + td_cells(unique_cells(cs).take(i + 1)));
        }
        i = i + 1;
    }
    proof {
        assert(unique_cells(cs).take(cs.len() as int) =~= unique_cells(cs));
    }
    html.append("</tr>");
    html.append("\n    <tr>\n    <td style=\"text-align:center\">Line Count</td>\n    ");
    let ghost base4 = html@;
    let mut i: usize = 0;
    while i < count.len()
        invariant
            i <= cs.len(),
            cs == count@,
            html@ == base4 + td_cells(line_cells(cs).take(i as int)),
        decreases cs.len() - i,
    {
        html.append("\n        <td style=\"text-align:right\">");
        push_dec(&mut html, count[i].line_count as u128);
        html.append("</td>");
        proof {
            assert(line_cells(cs)[i as int] == dec_str(cs[i as int].line_count as int));
            assert(line_cells(cs).take(i + 1).drop_last() =~= line_cells(cs).take(i as int));
            assert(line_cells(cs).take(i + 1).last() == line_cells(cs)[i as int]);
            assert(html@ =~= base4 + td_cells(line_cells(cs).take(i + 1)));
        }
        i = i + 1;
    }
    proof {
        assert(line_cells(cs).take(cs.len() as int) =~= line_cells(cs));
    }
    html.append("</tr>");
    html.append("\n    </table>\n    ");
    proof {
        assert(html@ =~= spec_html_table(cs, nv));
    }
    html
}

/// The rounded hundredths of a percentage: its exact value `100 * num /
/// den`, scaled by 100 and rounded half-up to an integer.
pub open spec fn pct_hundredths(p: Percent) -> int {
    (20000 * p.num + p.den) / (2 * p.den)
}

/// A percentage formatted with two decimal places and a trailing percent
/// sign.
pub open spec fn pct_str(p: Percent) -> Seq<char> {
    dec_str(pct_hundredths(p) / 100) + "."@ + dec_str((pct_hundredths(p) % 100) / 10) + dec_str(
        pct_hundredths(p) % 10,
    ) + "%"@
}

/// Appends a percentage, formatted as by `pct_str`.
pub fn push_percent(r: &mut String, p: Percent)
    requires
        pct_wf(p),
    ensures
        final(r)@ == old(r)@ + pct_str(p),
{
    let num: u128 = p.num as u128;
    let den: u128 = p.den as u128;
    let h: u128 = (20000 * num + den) / (2 * den);
    proof {
        assert(h as int == pct_hundredths(p));
    }
    push_dec(r, h / 100);
    r.append(".");
    push_dec(r, (h % 100) / 10);
    push_dec(r, h % 10);
    r.append("%");
    proof {
        assert(r@ =~= old(r)@ + pct_str(p));
    }
}

/// The chart data derived from a distribution: parallel sequences of
/// display names, character counts and percentages, consumed once to
/// render one SVG document.
pub struct ChartSpec {
    pub labels: Vec<String>,
    pub magnitudes: Vec<usize>,
    pub percentages: Vec<Percent>,
}

impl ChartSpec {
    /// The three sequences are parallel.
    pub open spec fn wf(&self) -> bool {
        self.labels@.len() == self.magnitudes@.len() && self.labels@.len()
            == self.percentages@.len()
    }

    /// Splits a distribution's records into the chart's parallel sequences,
    /// one entry per record, in the records' order.
    pub fn from_infos(infos: &Vec<LangInfo>) -> (c: ChartSpec)
        ensures
            c.wf(),
            c.labels@.len() == infos@.len(),
            forall|i: int|
                0 <= i < infos@.len() ==> {
                    &&& (#[trigger] c.labels@[i])@ == infos@[i].lang@
                    &&& c.magnitudes@[i] == infos@[i].total_character
                    &&& c.percentages@[i] == infos@[i].percentage
                },
    {
        let mut labels: Vec<String> = Vec::new();
        let mut magnitudes: Vec<usize> = Vec::new();
        let mut percentages: Vec<Percent> = Vec::new();
        let mut i: usize = 0;
        while i < infos.len()
            invariant
                i <= infos@.len(),
                labels@.len() == i,
                magnitudes@.len() == i,
                percentages@.len() == i,
                forall|j: int|
                    0 <= j < i ==> {
                        &&& (#[trigger] labels@[j])@ == infos@[j].lang@
                        &&& magnitudes@[j] == infos@[j].total_character
                        &&& percentages@[j] == infos@[j].percentage
                    },
            decreases infos@.len() - i,
        {
            let ghost l0 = labels@;
            let name = infos[i].lang.clone();
            let ghost gname = name;
            labels.push(name);
            magnitudes.push(infos[i].total_character);
            percentages.push(infos[i].percentage);
            proof {
                assert(labels@ == l0.push(gname));
                assert(gname@ == infos@[i as int].lang@);
                assert forall|j: int| 0 <= j < i + 1 implies {
                    &&& (#[trigger] labels@[j])@ == infos@[j].lang@
                    &&& magnitudes@[j] == infos@[j].total_character
                    &&& percentages@[j] == infos@[j].percentage
                } by {
                    if j < i {
                        assert(labels@[j] == l0[j]);
                    } else {
                        assert(labels@[j] == gname);
                    }
                }
            }
            i = i + 1;
        }
        ChartSpec { labels, magnitudes, percentages }
    }
}

/// The largest magnitude, or 0 when there is none.
pub open spec fn spec_max(mags: Seq<int>) -> int
    decreases mags.len(),
{
    if mags.len() == 0 {
        0
    } else if mags.last() > spec_max(mags.drop_last()) {
        mags.last()
    } else {
        spec_max(mags.drop_last())
    }
}

/// One `<rect>` element: a bar of the given height, anchored to the bottom
/// of the canvas.
pub open spec fn rect_elem(x: int, h: int, w: int) -> Seq<char> {
    "<rect x=\""@ + dec_str(x) + "\" y=\""@ + dec_str(150 - h) + "\" width=\""@ + dec_str(w)
        + "\" height=\""@ + dec_str(h) + "\" fill=\"yellow\" />"@
}

/// One `<text>` element centred at the given position.
pub open spec fn text_elem(x: int, y: int, body: Seq<char>) -> Seq<char> {
    "<text x=\""@ + dec_str(x) + "\" y=\""@ + dec_str(y) + "\" text-anchor=\"middle\" font-size=\"12\">"@
        + body + "</text>"@
}

/// One bar of the chart: its rectangle, its name label above the bar, and
/// its percentage label above the name. The bar's height scales its count
/// against the largest count, capped at half the canvas height; the width
/// splits half the canvas evenly over the bars, with fixed spacing of 5.
pub open spec fn bar_fragment(
    label: Seq<char>,
    mag: int,
    pct: Percent,
    i: int,
    n: int,
    maxc: int,
) -> Seq<char> {
    let w: int = 700int / n;
    let x: int = 5 + i * (w + 5);
    let h: int = if maxc == 0 {
        0int
    } else {
        mag * 75 / maxc
    };
    rect_elem(x, h, w) + text_elem(x + w / 2, 150 - h - 10, label) + text_elem(
        x + w / 2,
        150 - h - 30,
        pct_str(pct),
    )
}

/// The bar fragments of a chart, one per record, in order.
pub open spec fn bar_fragments(
    labels: Seq<Seq<char>>,
    mags: Seq<int>,
    pcts: Seq<Percent>,
) -> Seq<Seq<char>> {
    Seq::new(
        labels.len(),
        |i: int| bar_fragment(labels[i], mags[i], pcts[i], i, labels.len() as int, spec_max(mags)),
    )
}

/// Chart shape: a distribution with `n` records yields exactly `n` bar
/// fragments, and every fragment is one rectangle paired with exactly one
/// name label and one percentage label.
pub proof fn lemma_chart_shape(labels: Seq<Seq<char>>, mags: Seq<int>, pcts: Seq<Percent>)
    ensures
        bar_fragments(labels, mags, pcts).len() == labels.len(),
        forall|i: int|
            0 <= i < labels.len() ==> #[trigger] bar_fragments(labels, mags, pcts)[i]
                == bar_fragment(labels[i], mags[i], pcts[i], i, labels.len() as int, spec_max(mags)),
{
}

/// The fragments concatenated in order.
pub open spec fn concat_frags(fs: Seq<Seq<char>>) -> Seq<char>
    decreases fs.len(),
{
    if fs.len() == 0 {
        Seq::empty()
    } else {
        concat_frags(fs.drop_last()) + fs.last()
    }
}

/// The whole chart: a fixed 1400 by 150 canvas holding the bar fragments
/// left to right in record order. An empty distribution yields a valid,
/// empty canvas.
pub open spec fn spec_svg(labels: Seq<Seq<char>>, mags: Seq<int>, pcts: Seq<Percent>) -> Seq<
    char,
> {
    "<svg width=\"1400\" height=\"150\" xmlns=\"http://www.w3.org/2000/svg\">"@ + concat_frags(
        bar_fragments(labels, mags, pcts),
    ) + "</svg>"@
}

/// The magnitudes as mathematical integers.
pub open spec fn mags_int(mags: Seq<usize>) -> Seq<int> {
    mags.map_values(|x: usize| x as int)
}

/// Renders a distribution's bar chart as by `spec_svg`: one bar, one name
/// label and one percentage label per record, in record order.
pub fn generate_svg(chart: &ChartSpec) -> (r: String)
    requires
        chart.wf(),
        forall|i: int| 0 <= i < chart.percentages@.len() ==> pct_wf(#[trigger] chart.percentages@[i]),
    ensures
        r@ == spec_svg(views_of(chart.labels@), mags_int(chart.magnitudes@), chart.percentages@),
{
    let ghost lv = views_of(chart.labels@);
    let ghost mi = mags_int(chart.magnitudes@);
    let ghost fs = bar_fragments(lv, mi, chart.percentages@);
    let mut mx: usize = 0;
    let mut k: usize = 0;
    proof {
        assert(mi.take(0) =~= Seq::<int>::empty());
    }
    while k < chart.magnitudes.len()
        invariant
            k <= mi.len(),
            mi == mags_int(chart.magnitudes@),
            mx as int == spec_max(mi.take(k as int)),
        decreases mi.len() - k,
    {
        proof {
            assert(mi[k as int] == chart.magnitudes@[k as int] as int);
            assert(mi.take(k + 1).drop_last() =~= mi.take(k as int));
            assert(mi.take(k + 1).last() == mi[k as int]);
        }
        if chart.magnitudes[k] > mx {
            mx = chart.magnitudes[k];
        }
        k = k + 1;
    }
    proof {
        assert(mi.take(mi.len() as int) =~= mi);
    }
    let n: usize = chart.labels.len();
    let mut svg = String::new();
    svg.append("<svg width=\"1400\" height=\"150\" xmlns=\"http://www.w3.org/2000/svg\">");
    let ghost base = svg@;
    proof {
        assert(fs.take(0) =~= Seq::<Seq<char>>::empty());
    }
    let mut i: usize = 0;
    while i < n
        invariant
            i <= n,
            n == lv.len(),
            lv == views_of(chart.labels@),
            mi == mags_int(chart.magnitudes@),
            fs == bar_fragments(lv, mi, chart.percentages@),
            chart.wf(),
            forall|j: int|
                0 <= j < chart.percentages@.len() ==> pct_wf(#[trigger] chart.percentages@[j]),
            mx as int == spec_max(mi),
            svg@ == base + concat_frags(fs.take(i as int)),
        decreases n - i,
    {
        let mag: usize = chart.magnitudes[i];
        proof {
            assert(mi[i as int] == chart.magnitudes@[i as int] as int);
            assert(mi[i as int] <= spec_max(mi)) by {
                lemma_max_bound(mi, i as int);
            }
        }
        push_bar(&mut svg, &chart.labels[i], mag, chart.percentages[i], i, n, mx);
        proof {
            assert(lv[i as int] == chart.labels@[i as int]@);
            assert(fs[i as int] == bar_fragment(
                lv[i as int],
                mi[i as int],
                chart.percentages@[i as int],
                i as int,
                n as int,
                spec_max(mi),
            ));
            assert(fs.take(i + 1).drop_last() =~= fs.take(i as int));
            assert(fs.take(i + 1).last() == fs[i as int]);
            assert(svg@ =~= base + concat_frags(fs.take(i + 1)));
        }
        i = i + 1;
    }
    proof {
        assert(fs.take(n as int) =~= fs);
    }
    svg.append("</svg>");
    proof {
        assert(svg@ =~= spec_svg(lv, mi, chart.percentages@));
    }
    svg
}

/// Appends one bar: its rectangle and its two labels.
#[verifier::rlimit(100)]
fn push_bar(
    svg: &mut String,
    label: &String,
    mag: usize,
    pct: Percent,
    i: usize,
    n: usize,
    mx: usize,
)
    requires
        pct_wf(pct),
        i < n,
        mag <= mx,
    ensures
        final(svg)@ == old(svg)@ + bar_fragment(
            label@,
            mag as int,
            pct,
            i as int,
            n as int,
            mx as int,
        ),
{
    let bw: u128 = 700 / (n as u128);
    proof {
        assert((i as int) * ((bw as int) + 5) <= (i as int) * 705) by (nonlinear_arith)
            requires
                0 <= i as int,
                (bw as int) + 5 <= 705,
        ;
    }
    let x: u128 = 5 + (i as u128) * (bw + 5);
    let h: u128 = if mx == 0 {
        0
    } else {
        (mag as u128) * 75 / (mx as u128)
    };
    proof {
        if mx != 0 {
            assert(h <= 75) by (nonlinear_arith)
                requires
                    h as int == (mag as int) * 75 / (mx as int),
                    0 < mx as int,
                    mag as int <= mx as int,
            ;
        }
    }
    let ghost s0 = svg@;
    let ghost ws = 700int / (n as int);
    let ghost xs = 5 + (i as int) * (ws + 5);
    let ghost hs: int = if mx == 0 {
        0int
    } else {
        (mag as int) * 75 / (mx as int)
    };
    proof {
        assert(bw as int == ws);
        assert(x as int == xs);
        assert(h as int == hs);
    }
    svg.append("<rect x=\"");
    push_dec(svg, x);
    svg.append("\" y=\"");
    push_dec(svg, 150 - h);
    svg.append("\" width=\"");
    push_dec(svg, bw);
    svg.append("\" height=\"");
    push_dec(svg, h);
    svg.append("\" fill=\"yellow\" />");
    proof {
        assert(svg@ =~= s0 + rect_elem(xs, hs, ws));
    }
    let ghost s1 = svg@;
    svg.append("<text x=\"");
    push_dec(svg, x + bw / 2);
    svg.append("\" y=\"");
    push_dec(svg, 150 - h - 10);
    svg.append("\" text-anchor=\"middle\" font-size=\"12\">");
    svg.append(label.as_str());
    svg.append("</text>");
    proof {
        assert(svg@ =~= s1 + text_elem(xs + ws / 2, 150 - hs - 10, label@));
    }
    let ghost s2 = svg@;
    svg.append("<text x=\"");
    push_dec(svg, x + bw / 2);
    svg.append("\" y=\"");
    push_dec(svg, 150 - h - 30);
    svg.append("\" text-anchor=\"middle\" font-size=\"12\">");
    push_percent(svg, pct);
    svg.append("</text>");
    proof {
        assert(svg@ =~= s2 + text_elem(xs + ws / 2, 150 - hs - 30, pct_str(pct)));
        assert(svg@ =~= s0 + bar_fragment(label@, mag as int, pct, i as int, n as int, mx as int));
    }
}

proof fn lemma_max_bound(mags: Seq<int>, i: int)
    requires
        0 <= i < mags.len(),
    ensures
        mags[i] <= spec_max(mags),
    decreases mags.len(),
{
    if i < mags.len() - 1 {
        lemma_max_bound(mags.drop_last(), i);
    }
}

} // verus!
