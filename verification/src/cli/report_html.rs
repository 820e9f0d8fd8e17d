//! Renders a `HistoryReport` as a single self-contained HTML file.
//!
//! No scripts, no external assets, no charting library: the report is a plain file that can be
//! mailed or opened years from now, with nothing to fetch and nothing to break.
use vstd::prelude::*;
use vstd::string::*;
use crate::format::{at_most, bytes, bytes_spec, percent, percent_spec, relative_time};
use crate::model::{Moment, age_phrase, days_between};
use crate::number::{as_double, to_double};
use crate::report::{
    FailureEntry, FailureModel, GroupStats, GroupStatsModel, HistoryReport, RunSummary,
    RunSummaryModel, TimelinePoint, TopItem, TopItemModel, TriggerStats, TriggerStatsModel,
};
use crate::text::{
    chars_of, decimal, decimal_text, group_parts_of_texts, has_part, slice_text, views,
};

verus! {

broadcast use crate::text::lemma_views_push;

/// Where a run stands in the chart, as coordinates with one decimal place.
#[derive(Debug, Clone)]
pub struct PlotPoint {
    pub x: String,
    pub y: String,
}

impl View for PlotPoint {
    type V = (Seq<char>, Seq<char>);

    open spec fn view(&self) -> (Seq<char>, Seq<char>) {
        (self.x@, self.y@)
    }
}

/// How a character stands in HTML text.
pub open spec fn entity(c: char) -> Seq<char> {
    if c == '&' {
        "&amp;"@
    } else if c == '<' {
        "&lt;"@
    } else if c == '>' {
        "&gt;"@
    } else if c == '"' {
        "&quot;"@
    } else if c == '\'' {
        "&#39;"@
    } else {
        seq![c]
    }
}

/// How a text stands in HTML.
pub open spec fn escaped(s: Seq<char>) -> Seq<char>
    decreases s.len(),
{
    if s.len() == 0 {
        Seq::empty()
    } else {
        escaped(s.drop_last()) + entity(s.last())
    }
}

/// Escapes text before it goes into the HTML: labels, provider ids and error texts ultimately
/// come from filesystem paths or command output.
pub fn esc(s: &str) -> (out: String)
    ensures
        out@ == escaped(s@),
{
    let chars = chars_of(s);
    let mut out = String::new();
    let mut i: usize = 0;
    assert(out@ =~= escaped(s@.take(0)));
    while i < chars.len()
        invariant
            i <= chars@.len(),
            chars@ == s@,
            out@ == escaped(s@.take(i as int)),
        decreases chars@.len() - i,
    {
        assert(s@.take(i + 1).drop_last() =~= s@.take(i as int));
        let c = chars[i];
        if c == '&' {
            out.append("&amp;");
        } else if c == '<' {
            out.append("&lt;");
        } else if c == '>' {
            out.append("&gt;");
        } else if c == '"' {
            out.append("&quot;");
        } else if c == '\'' {
            out.append("&#39;");
        } else {
            let ghost before = out@;
            out.push(c);
            assert(out@ =~= before + seq![c]);
        }
        i += 1;
    }
    assert(s@.take(s@.len() as int) =~= s@);
    out
}

/// Digits in groups of three.
pub open spec fn in_threes(digits: Seq<char>) -> Seq<char>
    decreases digits.len(),
{
    if digits.len() <= 3 {
        digits
    } else {
        let split = digits.len() - 3;
        in_threes(digits.take(split)) + ","@ + digits.skip(split)
    }
}

fn group_digits(digits: &Vec<char>, end: usize) -> (out: String)
    requires
        end <= digits@.len(),
    ensures
        out@ == in_threes(digits@.take(end as int)),
    decreases end,
{
    let ghost shown = digits@.take(end as int);
    if end <= 3 {
        let out = slice_text(digits, 0, end);
        assert(out@ =~= shown);
        out
    } else {
        let split: usize = end - 3;
        assert(shown.take(split as int) =~= digits@.take(split as int));
        assert(shown.skip(split as int) =~= digits@.subrange(split as int, end as int));
        group_digits(digits, split).concat(",").concat(slice_text(digits, split, end).as_str())
    }
}

/// A number with a comma between each three digits.
pub fn thousands(n: u64) -> (out: String)
    ensures
        out@ == in_threes(decimal(n as nat)),
{
    let digits = chars_of(decimal_text(n as u128).as_str());
    let total: usize = digits.len();
    assert(digits@.take(total as int) =~= digits@);
    group_digits(&digits, total)
}

/// The head of the report.
pub open spec fn header_html(report: HistoryReport, version: Seq<char>, now: Moment) -> Seq<char> {
    "<header><h1>reclaim history report</h1><p class=\"dim\">Generated "@ + escaped(
        age_phrase(days_between(report.generated_at, now)),
    ) + " · reclaim "@ + escaped(version) + " · "@ + decimal(report.runs as nat)
        + " run(s) in this journal ("@ + decimal(report.dry_runs as nat) + " dry run"@ + (
    if report.dry_runs == 1 {
        ""@
    } else {
        "s"@
    }) + ")</p></header>\n"@
}

fn write_header(report: &HistoryReport, version: &str, now: Moment) -> (out: String)
    ensures
        out@ == header_html(*report, version@, now),
{
    "<header><h1>reclaim history report</h1><p class=\"dim\">Generated ".to_owned().concat(
        esc(relative_time(report.generated_at, now).as_str()).as_str(),
    ).concat(" · reclaim ").concat(esc(version).as_str()).concat(" · ").concat(
        decimal_text(report.runs as u128).as_str(),
    ).concat(" run(s) in this journal (").concat(
        decimal_text(report.dry_runs as u128).as_str(),
    ).concat(" dry run").concat(
        if report.dry_runs == 1 {
            ""
        } else {
            "s"
        },
    ).concat(")</p></header>\n")
}

/// One figure.
pub open spec fn card_html(label: Seq<char>, value: Seq<char>, accent: Seq<char>) -> Seq<char> {
    "<div class=\"card "@ + accent + "\"><div class=\"card-value\">"@ + escaped(value)
        + "</div><div class=\"card-label\">"@ + escaped(label) + "</div></div>\n"@
}

fn stat_card(label: &str, value: &str, accent: &str) -> (out: String)
    ensures
        out@ == card_html(label@, value@, accent@),
{
    "<div class=\"card ".to_owned().concat(accent).concat(
        "\"><div class=\"card-value\">",
    ).concat(esc(value).as_str()).concat("</div><div class=\"card-label\">").concat(
        esc(label).as_str(),
    ).concat("</div></div>\n")
}

/// The lifetime figures.
pub open spec fn stats_html(report: HistoryReport) -> Seq<char> {
    "<section class=\"stats\">"@ + card_html(
        "Lifetime freed"@,
        bytes_spec(report.lifetime_freed as nat),
        "safe"@,
    ) + card_html("In the Trash"@, bytes_spec(report.lifetime_trashed as nat), "review"@)
        + card_html(
        "Items found"@,
        in_threes(decimal(report.lifetime_candidates_found as nat)),
        ""@,
    ) + card_html("Real runs"@, in_threes(decimal(report.real_runs as nat)), ""@) + card_html(
        "Failed items"@,
        in_threes(decimal(report.failed_items as nat)),
        if report.failed_items > 0 {
            "caution"@
        } else {
            ""@
        },
    ) + "</section>"@
}

fn write_stats(report: &HistoryReport) -> (out: String)
    ensures
        out@ == stats_html(*report),
{
    let failed_class = if report.failed_items > 0 {
        "caution"
    } else {
        ""
    };
    "<section class=\"stats\">".to_owned().concat(
        stat_card("Lifetime freed", bytes(report.lifetime_freed).as_str(), "safe").as_str(),
    ).concat(
        stat_card("In the Trash", bytes(report.lifetime_trashed).as_str(), "review").as_str(),
    ).concat(
        stat_card(
            "Items found",
            thousands(report.lifetime_candidates_found).as_str(),
            "",
        ).as_str(),
    ).concat(
        stat_card("Real runs", thousands(report.real_runs as u64).as_str(), "").as_str(),
    ).concat(
        stat_card(
            "Failed items",
            thousands(report.failed_items as u64).as_str(),
            failed_class,
        ).as_str(),
    ).concat("</section>")
}

/// The line through the points of the chart.
pub open spec fn line_path(plot: Seq<(Seq<char>, Seq<char>)>) -> Seq<char>
    decreases plot.len(),
{
    if plot.len() == 0 {
        Seq::empty()
    } else {
        let p = plot.last();
        line_path(plot.drop_last()) + ((if plot.len() == 1 {
            "M"@
        } else {
            " L"@
        }) + p.0 + ","@ + p.1)
    }
}

/// The area under the line, without its closing.
pub open spec fn open_area(plot: Seq<(Seq<char>, Seq<char>)>) -> Seq<char>
    decreases plot.len(),
{
    if plot.len() == 0 {
        Seq::empty()
    } else {
        let p = plot.last();
        open_area(plot.drop_last()) + ((if plot.len() == 1 {
            "M"@ + p.0 + ",152.0 L"@
        } else {
            " L"@
        }) + p.0 + ","@ + p.1)
    }
}

fn draw_line(plot: &Vec<PlotPoint>) -> (out: String)
    ensures
        out@ == line_path(views(plot@)),
{
    let ghost all = views(plot@);
    let mut out = String::new();
    let mut i: usize = 0;
    assert(out@ =~= line_path(all.take(0)));
    while i < plot.len()
        invariant
            i <= plot@.len(),
            all == views(plot@),
            out@ == line_path(all.take(i as int)),
        decreases plot@.len() - i,
    {
        assert(all.take(i + 1).drop_last() =~= all.take(i as int));
        assert(all.take(i + 1).last() == plot@[i as int]@);
        let start = if i == 0 {
            "M"
        } else {
            " L"
        };
        let step = start.to_owned().concat(plot[i].x.as_str()).concat(",").concat(
            plot[i].y.as_str(),
        );
        out.append(step.as_str());
        i += 1;
    }
    assert(all.take(all.len() as int) =~= all);
    out
}

fn draw_area(plot: &Vec<PlotPoint>) -> (out: String)
    ensures
        out@ == open_area(views(plot@)),
{
    let ghost all = views(plot@);
    let mut out = String::new();
    let mut i: usize = 0;
    assert(out@ =~= open_area(all.take(0)));
    while i < plot.len()
        invariant
            i <= plot@.len(),
            all == views(plot@),
            out@ == open_area(all.take(i as int)),
        decreases plot@.len() - i,
    {
        assert(all.take(i + 1).drop_last() =~= all.take(i as int));
        assert(all.take(i + 1).last() == plot@[i as int]@);
        let start = if i == 0 {
            "M".to_owned().concat(plot[i].x.as_str()).concat(",152.0 L")
        } else {
            " L".to_owned()
        };
        let step = start.concat(plot[i].x.as_str()).concat(",").concat(plot[i].y.as_str());
        out.append(step.as_str());
        i += 1;
    }
    assert(all.take(all.len() as int) =~= all);
    out
}

/// The dots of the chart.
pub open spec fn dots_html(
    points: Seq<TimelinePoint>,
    plot: Seq<(Seq<char>, Seq<char>)>,
    now: Moment,
) -> Seq<char>
    decreases points.len(),
{
    if points.len() == 0 {
        Seq::empty()
    } else {
        let p = points.last();
        let at = plot[points.len() - 1];
        dots_html(points.drop_last(), plot, now) + ("<circle cx=\""@ + at.0 + "\" cy=\""@ + at.1
            + "\" r=\"3\" class=\"chart-dot\"><title>"@ + escaped(
            age_phrase(days_between(p.started_at, now)),
        ) + " · "@ + escaped(bytes_spec(p.freed as nat)) + " freed (running total "@ + escaped(
            bytes_spec(p.cumulative_freed as nat),
        ) + ")</title></circle>\n"@)
    }
}

fn draw_dots(points: &Vec<TimelinePoint>, plot: &Vec<PlotPoint>, now: Moment) -> (out: String)
    requires
        points@.len() == plot@.len(),
    ensures
        out@ == dots_html(points@, views(plot@), now),
{
    let mut out = String::new();
    let mut i: usize = 0;
    assert(out@ =~= dots_html(points@.take(0), views(plot@), now));
    while i < points.len()
        invariant
            i <= points@.len(),
            points@.len() == plot@.len(),
            out@ == dots_html(points@.take(i as int), views(plot@), now),
        decreases points@.len() - i,
    {
        assert(points@.take(i + 1).drop_last() =~= points@.take(i as int));
        assert(views(plot@)[i as int] == plot@[i as int]@);
        let p = points[i];
        let dot = "<circle cx=\"".to_owned().concat(plot[i].x.as_str()).concat(
            "\" cy=\"",
        ).concat(plot[i].y.as_str()).concat("\" r=\"3\" class=\"chart-dot\"><title>").concat(
            esc(relative_time(p.started_at, now).as_str()).as_str(),
        ).concat(" · ").concat(esc(bytes(p.freed).as_str()).as_str()).concat(
            " freed (running total ",
        ).concat(esc(bytes(p.cumulative_freed).as_str()).as_str()).concat(")</title></circle>\n");
        out.append(dot.as_str());
        i += 1;
    }
    assert(points@.take(points@.len() as int) =~= points@);
    out
}

/// The highest running total, at least one.
pub open spec fn highest_total(points: Seq<TimelinePoint>) -> nat
    decreases points.len(),
{
    if points.len() == 0 {
        1
    } else {
        let before = highest_total(points.drop_last());
        if points.last().cumulative_freed > before {
            points.last().cumulative_freed as nat
        } else {
            before
        }
    }
}

/// The highest running total of a timeline, at least one.
pub fn highest_running_total(points: &Vec<TimelinePoint>) -> (n: u64)
    ensures
        n == highest_total(points@),
        n >= 1,
{
    let mut n: u64 = 1;
    let mut i: usize = 0;
    assert(points@.take(0) =~= Seq::empty());
    while i < points.len()
        invariant
            i <= points@.len(),
            n >= 1,
            n == highest_total(points@.take(i as int)),
        decreases points@.len() - i,
    {
        assert(points@.take(i + 1).drop_last() =~= points@.take(i as int));
        if points[i].cumulative_freed > n {
            n = points[i].cumulative_freed;
        }
        i += 1;
    }
    assert(points@.take(points@.len() as int) =~= points@);
    n
}

/// The total under the chart: it went through the floating point of the chart's scale.
pub open spec fn charted_total(n: nat) -> nat {
    at_most(as_double(n), u64::MAX as nat)
}

/// The chart of what was freed over time.
pub open spec fn timeline_html(
    points: Seq<TimelinePoint>,
    plot: Seq<(Seq<char>, Seq<char>)>,
    now: Moment,
) -> Seq<char> {
    if points.len() < 2 {
        "<section><h2>Freed over time</h2>"@
            + "<p class=\"dim\">Not enough real runs yet to plot a trend.</p></section>"@
    } else {
        "<section><h2>Freed over time</h2>"@
            + "<svg viewBox=\"0 0 720 180\" class=\"chart\" role=\"img\" aria-label=\"Cumulative bytes freed over time\"><line x1=\"28\" y1=\"152.0\" x2=\"692.0\" y2=\"152.0\" class=\"axis\" /><path d=\""@
            + open_area(plot) + " L"@ + plot.last().0 + ",152.0 Z"@
            + "\" class=\"chart-area\" /><path d=\""@ + line_path(plot)
            + "\" class=\"chart-line\" />\n"@ + dots_html(points, plot, now) + "</svg>"@
            + "<p class=\"dim small\">"@ + escaped(
            bytes_spec(charted_total(highest_total(points))),
        ) + " total across "@ + decimal(points.len()) + " real run(s), from "@ + escaped(
            age_phrase(days_between(points[0].started_at, now)),
        ) + " to "@ + escaped(age_phrase(days_between(points.last().started_at, now)))
            + "</p></section>\n"@
    }
}

fn write_timeline(points: &Vec<TimelinePoint>, plot: &Vec<PlotPoint>, now: Moment) -> (out: String)
    requires
        points@.len() == plot@.len(),
    ensures
        out@ == timeline_html(points@, views(plot@), now),
{
    if points.len() < 2 {
        return "<section><h2>Freed over time</h2>".to_owned().concat(
            "<p class=\"dim\">Not enough real runs yet to plot a trend.</p></section>",
        );
    }
    let last: usize = points.len() - 1;
    assert(views(plot@).last() == plot@[last as int]@);
    let charted: u128 = to_double(highest_running_total(points));
    let total: u64 = if charted > u64::MAX as u128 {
        u64::MAX
    } else {
        charted as u64
    };
    "<section><h2>Freed over time</h2>".to_owned().concat(
        "<svg viewBox=\"0 0 720 180\" class=\"chart\" role=\"img\" aria-label=\"Cumulative bytes freed over time\"><line x1=\"28\" y1=\"152.0\" x2=\"692.0\" y2=\"152.0\" class=\"axis\" /><path d=\"",
    ).concat(draw_area(plot).as_str()).concat(" L").concat(plot[last].x.as_str()).concat(
        ",152.0 Z",
    ).concat("\" class=\"chart-area\" /><path d=\"").concat(draw_line(plot).as_str()).concat(
        "\" class=\"chart-line\" />\n",
    ).concat(draw_dots(points, plot, now).as_str()).concat("</svg>").concat(
        "<p class=\"dim small\">",
    ).concat(esc(bytes(total).as_str()).as_str()).concat(" total across ").concat(
        decimal_text(points.len() as u128).as_str(),
    ).concat(" real run(s), from ").concat(
        esc(relative_time(points[0].started_at, now).as_str()).as_str(),
    ).concat(" to ").concat(
        esc(relative_time(points[last].started_at, now).as_str()).as_str(),
    ).concat("</p></section>\n")
}

/// A group's total fits.
pub open spec fn bar_fits(g: GroupStatsModel) -> bool {
    g.freed + g.trashed <= u64::MAX
}

/// The longest bar, at least one.
pub open spec fn longest_bar(groups: Seq<GroupStatsModel>) -> nat
    decreases groups.len(),
{
    if groups.len() == 0 {
        1
    } else {
        let before = longest_bar(groups.drop_last());
        let here = groups.last().freed + groups.last().trashed;
        if here > before {
            here
        } else {
            before
        }
    }
}

fn find_longest_bar(groups: &Vec<GroupStats>) -> (n: u64)
    requires
        forall|i: int| 0 <= i < groups@.len() ==> bar_fits((#[trigger] groups@[i])@),
    ensures
        n == longest_bar(views(groups@)),
        n >= 1,
        forall|i: int|
            0 <= i < groups@.len() ==> (#[trigger] groups@[i]).freed + groups@[i].trashed <= n,
{
    let ghost all = views(groups@);
    let mut n: u64 = 1;
    let mut i: usize = 0;
    assert(all.take(0) =~= Seq::empty());
    while i < groups.len()
        invariant
            i <= groups@.len(),
            all == views(groups@),
            n >= 1,
            n == longest_bar(all.take(i as int)),
            forall|k: int| 0 <= k < groups@.len() ==> bar_fits((#[trigger] groups@[k])@),
            forall|k: int| 0 <= k < i ==> (#[trigger] groups@[k]).freed + groups@[k].trashed <= n,
        decreases groups@.len() - i,
    {
        assert(all.take(i + 1).drop_last() =~= all.take(i as int));
        assert(all.take(i + 1).last() == groups@[i as int]@);
        assert(bar_fits(groups@[i as int]@));
        let here: u64 = groups[i].freed + groups[i].trashed;
        if here > n {
            n = here;
        }
        i += 1;
    }
    assert(all.take(all.len() as int) =~= all);
    n
}

/// The bar of one group.
pub open spec fn bar_html(g: GroupStatsModel, longest: nat) -> Seq<char> {
    "<div class=\"bar-row\"><div class=\"bar-label\">"@ + escaped(g.title)
        + " <span class=\"dim small\">("@ + decimal(g.items) + " item"@ + (if g.items == 1 {
        ""@
    } else {
        "s"@
    })
        + ")</span></div><div class=\"bar-track\"><div class=\"bar-fill freed\" style=\"width:"@
        + percent_spec(g.freed, longest)
        + "%\"></div><div class=\"bar-fill trashed\" style=\"width:"@ + percent_spec(
        g.trashed,
        longest,
    ) + "%\"></div></div><div class=\"bar-value\">"@ + escaped(bytes_spec(g.freed)) + (
    if g.trashed > 0 {
        " <span class=\"dim small\">+"@ + bytes_spec(g.trashed) + " trashed</span>"@
    } else {
        ""@
    }) + "</div></div>\n"@
}

fn write_group_bar(g: &GroupStats, longest: u64) -> (out: String)
    requires
        longest >= 1,
        g.freed <= longest,
        g.trashed <= longest,
    ensures
        out@ == bar_html(g@, longest as nat),
{
    let trashed = if g.trashed > 0 {
        " <span class=\"dim small\">+".to_owned().concat(bytes(g.trashed).as_str()).concat(
            " trashed</span>",
        )
    } else {
        "".to_owned()
    };
    "<div class=\"bar-row\"><div class=\"bar-label\">".to_owned().concat(
        esc(g.title.as_str()).as_str(),
    ).concat(" <span class=\"dim small\">(").concat(decimal_text(g.items as u128).as_str()).concat(
        " item",
    ).concat(
        if g.items == 1 {
            ""
        } else {
            "s"
        },
    ).concat(
        ")</span></div><div class=\"bar-track\"><div class=\"bar-fill freed\" style=\"width:",
    ).concat(percent(g.freed, longest).as_str()).concat(
        "%\"></div><div class=\"bar-fill trashed\" style=\"width:",
    ).concat(percent(g.trashed, longest).as_str()).concat(
        "%\"></div></div><div class=\"bar-value\">",
    ).concat(esc(bytes(g.freed).as_str()).as_str()).concat(trashed.as_str()).concat(
        "</div></div>\n",
    )
}

/// The bars of the groups.
pub open spec fn bars_html(groups: Seq<GroupStatsModel>, longest: nat) -> Seq<char>
    decreases groups.len(),
{
    if groups.len() == 0 {
        Seq::empty()
    } else {
        bars_html(groups.drop_last(), longest) + bar_html(groups.last(), longest)
    }
}

/// What each ecosystem gave back.
pub open spec fn by_group_html(groups: Seq<GroupStatsModel>) -> Seq<char> {
    "<section><h2>By ecosystem</h2>"@ + (if groups.len() == 0 {
        "<p class=\"dim\">Nothing reclaimed yet.</p></section>"@
    } else {
        "<div class=\"bars\">"@ + bars_html(groups, longest_bar(groups)) + "</div></section>"@
    })
}

fn write_by_group(groups: &Vec<GroupStats>) -> (out: String)
    requires
        forall|i: int| 0 <= i < groups@.len() ==> bar_fits((#[trigger] groups@[i])@),
    ensures
        out@ == by_group_html(views(groups@)),
{
    let ghost all = views(groups@);
    if groups.len() == 0 {
        return "<section><h2>By ecosystem</h2>".to_owned().concat(
            "<p class=\"dim\">Nothing reclaimed yet.</p></section>",
        );
    }
    let longest: u64 = find_longest_bar(groups);
    let mut bars = String::new();
    let mut i: usize = 0;
    assert(bars@ =~= bars_html(all.take(0), longest as nat));
    while i < groups.len()
        invariant
            i <= groups@.len(),
            all == views(groups@),
            longest >= 1,
            forall|k: int|
                0 <= k < groups@.len() ==> (#[trigger] groups@[k]).freed + groups@[k].trashed
                    <= longest,
            bars@ == bars_html(all.take(i as int), longest as nat),
        decreases groups@.len() - i,
    {
        assert(all.take(i + 1).drop_last() =~= all.take(i as int));
        assert(all.take(i + 1).last() == groups@[i as int]@);
        bars.append(write_group_bar(&groups[i], longest).as_str());
        i += 1;
    }
    assert(all.take(all.len() as int) =~= all);
    "<section><h2>By ecosystem</h2>".to_owned().concat(
        "<div class=\"bars\">".to_owned().concat(bars.as_str()).concat(
            "</div></section>",
        ).as_str(),
    )
}

/// The row of one trigger.
pub open spec fn trigger_html(r: TriggerStatsModel) -> Seq<char> {
    "<tr><td>"@
        + escaped(r.label)
        + "</td><td class=\"num\">"@
        + decimal(r.runs)
        + "</td><td class=\"num\">"@
        + escaped(bytes_spec(r.freed))
        + "</td></tr>\n"@
}

fn trigger_row(r: &TriggerStats) -> (out: String)
    ensures
        out@ == trigger_html(r@),
{
    "<tr><td>".to_owned().concat(esc(r.label.as_str()).as_str()).concat(
        "</td><td class=\"num\">",
    ).concat(decimal_text(r.runs as u128).as_str()).concat(
        "</td><td class=\"num\">",
    ).concat(esc(bytes(r.freed).as_str()).as_str()).concat(
        "</td></tr>\n",
    )
}

/// The row of one trigger, one after the other.
pub open spec fn trigger_rows(rows: Seq<TriggerStatsModel>) -> Seq<char>
    decreases rows.len(),
{
    if rows.len() == 0 {
        Seq::empty()
    } else {
        trigger_rows(rows.drop_last()) + trigger_html(rows.last())
    }
}

/// What each trigger started.
pub open spec fn by_trigger_html(rows: Seq<TriggerStatsModel>) -> Seq<char> {
    "<section><h2>By trigger</h2>\n<table><thead><tr><th>Trigger</th><th>Runs</th><th>Freed</th></tr></thead><tbody>"@ + trigger_rows(rows) + "</tbody></table></section>"@
}

fn write_by_trigger(rows: &Vec<TriggerStats>) -> (out: String)
    ensures
        out@ == by_trigger_html(views(rows@)),
{
    let ghost all = views(rows@);
    let mut text = String::new();
    let mut i: usize = 0;
    assert(text@ =~= trigger_rows(all.take(0)));
    while i < rows.len()
        invariant
            i <= rows@.len(),
            all == views(rows@),
            text@ == trigger_rows(all.take(i as int)),
        decreases rows@.len() - i,
    {
        assert(all.take(i + 1).drop_last() =~= all.take(i as int));
        assert(all.take(i + 1).last() == rows@[i as int]@);
        text.append(trigger_row(&rows[i]).as_str());
        i += 1;
    }
    assert(all.take(all.len() as int) =~= all);
    "<section><h2>By trigger</h2>\n<table><thead><tr><th>Trigger</th><th>Runs</th><th>Freed</th></tr></thead><tbody>".to_owned().concat(
        text.as_str(),
    ).concat("</tbody></table></section>")
}

/// The row of one reclaim.
pub open spec fn top_item_html(r: TopItemModel, now: Moment) -> Seq<char> {
    "<tr><td>"@
        + escaped(r.label)
        + "</td><td>"@
        + escaped(r.group.heading())
        + "</td><td><span class=\"pill "@
        + r.tier.name()
        + "\">"@
        + r.tier.name()
        + "</span></td><td class=\"num\">"@
        + escaped(bytes_spec(r.bytes as nat))
        + "</td><td class=\"dim\">"@
        + escaped(age_phrase(days_between(r.started_at, now)))
        + "</td></tr>\n"@
}

fn top_item_row(r: &TopItem, now: Moment) -> (out: String)
    ensures
        out@ == top_item_html(r@, now),
{
    "<tr><td>".to_owned().concat(esc(r.label.as_str()).as_str()).concat(
        "</td><td>",
    ).concat(esc(r.group.title()).as_str()).concat(
        "</td><td><span class=\"pill ",
    ).concat(r.tier.as_str()).concat(
        "\">",
    ).concat(r.tier.as_str()).concat(
        "</span></td><td class=\"num\">",
    ).concat(esc(bytes(r.bytes).as_str()).as_str()).concat(
        "</td><td class=\"dim\">",
    ).concat(esc(relative_time(r.started_at, now).as_str()).as_str()).concat(
        "</td></tr>\n",
    )
}

/// The row of one reclaim, one after the other.
pub open spec fn top_item_rows(rows: Seq<TopItemModel>, now: Moment) -> Seq<char>
    decreases rows.len(),
{
    if rows.len() == 0 {
        Seq::empty()
    } else {
        top_item_rows(rows.drop_last(), now) + top_item_html(rows.last(), now)
    }
}

/// The biggest single reclaims.
pub open spec fn top_items_html(rows: Seq<TopItemModel>, now: Moment) -> Seq<char> {
    "<section><h2>Biggest reclaims ever</h2>"@ + (if rows.len() == 0 {
        "<p class=\"dim\">Nothing reclaimed yet.</p></section>"@
    } else {
        "<table><thead><tr><th>What</th><th>Ecosystem</th><th>Tier</th><th>Size</th><th>When</th></tr></thead><tbody>"@ + top_item_rows(rows, now) + "</tbody></table></section>"@
    })
}

fn write_top_items(rows: &Vec<TopItem>, now: Moment) -> (out: String)
    ensures
        out@ == top_items_html(views(rows@), now),
{
    let ghost all = views(rows@);
    if rows.len() == 0 {
        return "<section><h2>Biggest reclaims ever</h2>".to_owned().concat(
            "<p class=\"dim\">Nothing reclaimed yet.</p></section>",
        );
    }
    let mut text = String::new();
    let mut i: usize = 0;
    assert(text@ =~= top_item_rows(all.take(0), now));
    while i < rows.len()
        invariant
            i <= rows@.len(),
            all == views(rows@),
            text@ == top_item_rows(all.take(i as int), now),
        decreases rows@.len() - i,
    {
        assert(all.take(i + 1).drop_last() =~= all.take(i as int));
        assert(all.take(i + 1).last() == rows@[i as int]@);
        text.append(top_item_row(&rows[i], now).as_str());
        i += 1;
    }
    assert(all.take(all.len() as int) =~= all);
    "<section><h2>Biggest reclaims ever</h2>".to_owned().concat(
        "<table><thead><tr><th>What</th><th>Ecosystem</th><th>Tier</th><th>Size</th><th>When</th></tr></thead><tbody>".to_owned().concat(
            text.as_str(),
        ).concat("</tbody></table></section>").as_str(),
    )
}

/// The row of one failure.
pub open spec fn failure_html(r: FailureModel, now: Moment) -> Seq<char> {
    "<tr class=\"failure\"><td class=\"dim\">"@
        + escaped(age_phrase(days_between(r.started_at, now)))
        + "</td><td>"@
        + escaped(r.label)
        + "</td><td class=\"dim\">"@
        + escaped(r.provider)
        + "</td><td>"@
        + escaped(r.error)
        + "</td></tr>\n"@
}

fn failure_row(r: &FailureEntry, now: Moment) -> (out: String)
    ensures
        out@ == failure_html(r@, now),
{
    "<tr class=\"failure\"><td class=\"dim\">".to_owned().concat(esc(relative_time(r.started_at, now).as_str()).as_str()).concat(
        "</td><td>",
    ).concat(esc(r.label.as_str()).as_str()).concat(
        "</td><td class=\"dim\">",
    ).concat(esc(r.provider.as_str()).as_str()).concat(
        "</td><td>",
    ).concat(esc(r.error.as_str()).as_str()).concat(
        "</td></tr>\n",
    )
}

/// The row of one failure, one after the other.
pub open spec fn failure_rows(rows: Seq<FailureModel>, now: Moment) -> Seq<char>
    decreases rows.len(),
{
    if rows.len() == 0 {
        Seq::empty()
    } else {
        failure_rows(rows.drop_last(), now) + failure_html(rows.last(), now)
    }
}

/// What failed.
pub open spec fn failures_html(rows: Seq<FailureModel>, now: Moment) -> Seq<char> {
    "<section><h2>Failures</h2>"@ + (if rows.len() == 0 {
        "<p class=\"dim\">No failures recorded. Nothing to investigate.</p></section>"@
    } else {
        "<table><thead><tr><th>When</th><th>What</th><th>Provider</th><th>Error</th></tr></thead><tbody>"@ + failure_rows(rows, now) + "</tbody></table></section>"@
    })
}

fn write_failures(rows: &Vec<FailureEntry>, now: Moment) -> (out: String)
    ensures
        out@ == failures_html(views(rows@), now),
{
    let ghost all = views(rows@);
    if rows.len() == 0 {
        return "<section><h2>Failures</h2>".to_owned().concat(
            "<p class=\"dim\">No failures recorded. Nothing to investigate.</p></section>",
        );
    }
    let mut text = String::new();
    let mut i: usize = 0;
    assert(text@ =~= failure_rows(all.take(0), now));
    while i < rows.len()
        invariant
            i <= rows@.len(),
            all == views(rows@),
            text@ == failure_rows(all.take(i as int), now),
        decreases rows@.len() - i,
    {
        assert(all.take(i + 1).drop_last() =~= all.take(i as int));
        assert(all.take(i + 1).last() == rows@[i as int]@);
        text.append(failure_row(&rows[i], now).as_str());
        i += 1;
    }
    assert(all.take(all.len() as int) =~= all);
    "<section><h2>Failures</h2>".to_owned().concat(
        "<table><thead><tr><th>When</th><th>What</th><th>Provider</th><th>Error</th></tr></thead><tbody>".to_owned().concat(
            text.as_str(),
        ).concat("</tbody></table></section>").as_str(),
    )
}

/// How a run ended.
pub open spec fn status_html(r: RunSummaryModel) -> Seq<char> {
    if r.dry_run {
        "<span class=\"pill\">dry run</span>"@
    } else if r.succeeded {
        "<span class=\"pill safe\">ok</span>"@
    } else {
        "<span class=\"pill caution\">failed</span>"@
    }
}

fn status_of(r: &RunSummary) -> (s: &'static str)
    ensures
        s@ == status_html(r@),
{
    if r.dry_run {
        "<span class=\"pill\">dry run</span>"
    } else if r.succeeded {
        "<span class=\"pill safe\">ok</span>"
    } else {
        "<span class=\"pill caution\">failed</span>"
    }
}

/// The row of one run.
pub open spec fn run_html(r: RunSummaryModel, now: Moment) -> Seq<char> {
    "<tr><td class=\"dim\">"@
        + escaped(age_phrase(days_between(r.started_at, now)))
        + "</td><td>"@
        + escaped(r.trigger.name())
        + "</td><td class=\"num\">"@
        + escaped(bytes_spec(r.freed))
        + "</td><td class=\"num\">"@
        + escaped(bytes_spec(r.trashed))
        + "</td><td class=\"num\">"@
        + decimal(r.items)
        + "</td><td class=\"num\">"@
        + decimal(r.failures)
        + "</td><td>"@
        + status_html(r)
        + "</td></tr>\n"@
}

fn run_row(r: &RunSummary, now: Moment) -> (out: String)
    ensures
        out@ == run_html(r@, now),
{
    "<tr><td class=\"dim\">".to_owned().concat(esc(relative_time(r.started_at, now).as_str()).as_str()).concat(
        "</td><td>",
    ).concat(esc(r.trigger.label()).as_str()).concat(
        "</td><td class=\"num\">",
    ).concat(esc(bytes(r.freed).as_str()).as_str()).concat(
        "</td><td class=\"num\">",
    ).concat(esc(bytes(r.trashed).as_str()).as_str()).concat(
        "</td><td class=\"num\">",
    ).concat(decimal_text(r.items as u128).as_str()).concat(
        "</td><td class=\"num\">",
    ).concat(decimal_text(r.failures as u128).as_str()).concat(
        "</td><td>",
    ).concat(status_of(r)).concat(
        "</td></tr>\n",
    )
}

/// The row of one run, one after the other.
pub open spec fn run_rows(rows: Seq<RunSummaryModel>, now: Moment) -> Seq<char>
    decreases rows.len(),
{
    if rows.len() == 0 {
        Seq::empty()
    } else {
        run_rows(rows.drop_last(), now) + run_html(rows.last(), now)
    }
}

/// All runs.
pub open spec fn runs_html(rows: Seq<RunSummaryModel>, now: Moment) -> Seq<char> {
    "<section><h2>Every run</h2>\n<div class=\"scroll\"><table><thead><tr><th>When</th><th>Trigger</th><th>Freed</th><th>Trashed</th><th>Items</th><th>Failures</th><th>Status</th></tr></thead><tbody>"@ + run_rows(rows, now) + "</tbody></table></div></section>"@
}

fn write_runs(rows: &Vec<RunSummary>, now: Moment) -> (out: String)
    ensures
        out@ == runs_html(views(rows@), now),
{
    let ghost all = views(rows@);
    let mut text = String::new();
    let mut i: usize = 0;
    assert(text@ =~= run_rows(all.take(0), now));
    while i < rows.len()
        invariant
            i <= rows@.len(),
            all == views(rows@),
            text@ == run_rows(all.take(i as int), now),
        decreases rows@.len() - i,
    {
        assert(all.take(i + 1).drop_last() =~= all.take(i as int));
        assert(all.take(i + 1).last() == rows@[i as int]@);
        text.append(run_row(&rows[i], now).as_str());
        i += 1;
    }
    assert(all.take(all.len() as int) =~= all);
    "<section><h2>Every run</h2>\n<div class=\"scroll\"><table><thead><tr><th>When</th><th>Trigger</th><th>Freed</th><th>Trashed</th><th>Items</th><th>Failures</th><th>Status</th></tr></thead><tbody>".to_owned().concat(
        text.as_str(),
    ).concat("</tbody></table></div></section>")
}

/// The style sheet of the report.
pub const STYLE: &'static str = r#"
:root {
  --bg: #f6f7f9; --surface: #fff; --border: #dfe3e8; --text: #12161c; --dim: #5f6b7a;
  --safe: #2f9e5e; --review: #c98a12; --caution: #cf3f3f; --accent: #2f6fdb;
}
@media (prefers-color-scheme: dark) {
  :root { --bg: #14171c; --surface: #1c2027; --border: #2c323b; --text: #e6e9ee; --dim: #99a3b1;
    --safe: #4cc37e; --review: #e0a838; --caution: #f2645f; --accent: #6aa1ff; }
}
* { box-sizing: border-box; }
body { margin: 0; padding: 2rem; background: var(--bg); color: var(--text);
  font: 14px/1.5 -apple-system, BlinkMacSystemFont, "Segoe UI", sans-serif; }
header { margin-bottom: 1.5rem; }
h1 { margin: 0 0 0.2rem; font-size: 1.4rem; }
h2 { font-size: 1rem; margin: 0 0 0.6rem; }
.dim { color: var(--dim); }
.small { font-size: 0.8em; }
section { max-width: 900px; margin: 0 auto 1.8rem; background: var(--surface);
  border: 1px solid var(--border); border-radius: 10px; padding: 1rem 1.2rem; }
header { max-width: 900px; margin-left: auto; margin-right: auto; }
.stats { max-width: 900px; margin: 0 auto 1.8rem; display: grid;
  grid-template-columns: repeat(auto-fit, minmax(140px, 1fr)); gap: 0.75rem; background: none;
  border: none; padding: 0; }
.card { background: var(--surface); border: 1px solid var(--border); border-radius: 10px;
  padding: 0.8rem; text-align: center; }
.card-value { font-size: 1.3rem; font-weight: 700; }
.card.safe .card-value { color: var(--safe); }
.card.review .card-value { color: var(--review); }
.card.caution .card-value { color: var(--caution); }
.card-label { color: var(--dim); font-size: 0.78rem; margin-top: 0.15rem; }
table { width: 100%; border-collapse: collapse; font-size: 0.86rem; }
th, td { text-align: left; padding: 0.35rem 0.5rem; border-bottom: 1px solid var(--border); }
th { color: var(--dim); font-weight: 600; }
td.num { font-variant-numeric: tabular-nums; white-space: nowrap; }
tr.failure td { color: var(--caution); }
.scroll { overflow-x: auto; }
.pill { display: inline-block; padding: 0.05rem 0.45rem; border-radius: 999px;
  font-size: 0.75rem; border: 1px solid currentColor; color: var(--dim); }
.pill.safe { color: var(--safe); }
.pill.review { color: var(--review); }
.pill.caution { color: var(--caution); }
.chart { width: 100%; height: auto; }
.axis { stroke: var(--border); }
.chart-area { fill: color-mix(in srgb, var(--accent) 18%, transparent); stroke: none; }
.chart-line { fill: none; stroke: var(--accent); stroke-width: 2; }
.chart-dot { fill: var(--accent); }
.bars { display: flex; flex-direction: column; gap: 0.55rem; }
.bar-row { display: grid; grid-template-columns: 11rem 1fr 8rem; align-items: center; gap: 0.6rem; }
.bar-track { display: flex; height: 12px; background: var(--bg); border-radius: 6px; overflow: hidden; }
.bar-fill.freed { background: var(--safe); }
.bar-fill.trashed { background: var(--review); opacity: 0.7; }
.bar-value { text-align: right; font-variant-numeric: tabular-nums; white-space: nowrap; }
"#;

/// The sums that the bars show fit.
pub open spec fn drawable(report: HistoryReport) -> bool {
    forall|i: int| 0 <= i < report.by_group@.len() ==> bar_fits((#[trigger] report.by_group@[i])@)
}

/// Whether the sums that the bars show fit.
pub fn is_drawable(report: &HistoryReport) -> (r: bool)
    ensures
        r == drawable(*report),
{
    let groups = &report.by_group;
    let mut i: usize = 0;
    while i < groups.len()
        invariant
            i <= groups@.len(),
            groups == &report.by_group,
            forall|k: int| 0 <= k < i ==> bar_fits((#[trigger] groups@[k])@),
        decreases groups@.len() - i,
    {
        if groups[i].freed > u64::MAX - groups[i].trashed {
            assert(!bar_fits(report.by_group@[i as int]@));
            return false;
        }
        i += 1;
    }
    true
}

/// The whole report.
pub open spec fn page_html(
    report: HistoryReport,
    version: Seq<char>,
    plot: Seq<(Seq<char>, Seq<char>)>,
    now: Moment,
) -> Seq<char> {
    "<!doctype html>\n<html lang=\"en\"><head><meta charset=\"utf-8\"><meta name=\"viewport\" content=\"width=device-width, initial-scale=1\"><title>reclaim — history report</title>\n<style>"@
        + STYLE@ + "</style></head><body>"@ + header_html(report, version, now) + stats_html(report)
        + timeline_html(report.timeline@, plot, now) + by_group_html(views(report.by_group@))
        + by_trigger_html(views(report.by_trigger@)) + top_items_html(
        views(report.top_items@),
        now,
    ) + failures_html(views(report.failures@), now) + runs_html(views(report.runs_detail@), now)
        + "</body></html>"@
}

/// The whole report. The points of the chart are given for the points of the timeline.
pub fn render(report: &HistoryReport, version: &str, plot: &Vec<PlotPoint>, now: Moment) -> (out:
    String)
    requires
        report.timeline@.len() == plot@.len(),
        drawable(*report),
    ensures
        out@ == page_html(*report, version@, views(plot@), now),
{
    "<!doctype html>\n<html lang=\"en\"><head><meta charset=\"utf-8\"><meta name=\"viewport\" content=\"width=device-width, initial-scale=1\"><title>reclaim — history report</title>\n<style>".to_owned().concat(
        STYLE,
    ).concat("</style></head><body>").concat(write_header(report, version, now).as_str()).concat(
        write_stats(report).as_str(),
    ).concat(write_timeline(&report.timeline, plot, now).as_str()).concat(
        write_by_group(&report.by_group).as_str(),
    ).concat(write_by_trigger(&report.by_trigger).as_str()).concat(
        write_top_items(&report.top_items, now).as_str(),
    ).concat(write_failures(&report.failures, now).as_str()).concat(
        write_runs(&report.runs_detail, now).as_str(),
    ).concat("</body></html>")
}

/// Escaped text holds no markup: neither an angle bracket nor a quote.
pub proof fn escaped_text_holds_no_markup(s: Seq<char>, i: int)
    requires
        0 <= i < escaped(s).len(),
    ensures
        escaped(s)[i] != '<',
        escaped(s)[i] != '>',
        escaped(s)[i] != '"',
        escaped(s)[i] != '\'',
    decreases s.len(),
{
    reveal_strlit("&amp;");
    reveal_strlit("&lt;");
    reveal_strlit("&gt;");
    reveal_strlit("&quot;");
    reveal_strlit("&#39;");
    if s.len() > 0 {
        let before = escaped(s.drop_last());
        if i < before.len() {
            escaped_text_holds_no_markup(s.drop_last(), i);
        }
    }
}

/// Texts are escaped one character after the other: five of them become entities, and all others
/// stay.
pub proof fn each_character_is_escaped_by_itself(a: Seq<char>, c: char)
    ensures
        escaped(Seq::empty()) == Seq::<char>::empty(),
        escaped(a.push('&')) == escaped(a) + "&amp;"@,
        escaped(a.push('<')) == escaped(a) + "&lt;"@,
        escaped(a.push('>')) == escaped(a) + "&gt;"@,
        escaped(a.push('"')) == escaped(a) + "&quot;"@,
        escaped(a.push('\'')) == escaped(a) + "&#39;"@,
        c != '&' && c != '<' && c != '>' && c != '"' && c != '\'' ==> escaped(a.push(c))
            == escaped(a).push(c),
{
    assert(a.push('&').drop_last() =~= a);
    assert(a.push('<').drop_last() =~= a);
    assert(a.push('>').drop_last() =~= a);
    assert(a.push('"').drop_last() =~= a);
    assert(a.push('\'').drop_last() =~= a);
    assert(a.push(c).drop_last() =~= a);
    assert(escaped(a) + seq![c] =~= escaped(a).push(c));
}

/// Digits are grouped by three from the right.
pub proof fn digits_are_grouped_by_three(front: Seq<char>, three: Seq<char>)
    requires
        three.len() == 3,
    ensures
        front.len() <= 3 ==> in_threes(front) == front,
        front.len() > 0 ==> in_threes(front + three) == in_threes(front) + ","@ + three,
{
    if front.len() > 0 {
        let all = front + three;
        assert(all.take(all.len() - 3) =~= front);
        assert(all.skip(all.len() - 3) =~= three);
    }
}

/// The chart is as high as its highest point, and the longest bar as long as its longest group.
pub proof fn charts_are_scaled_by_their_largest(
    points: Seq<TimelinePoint>,
    groups: Seq<GroupStatsModel>,
)
    ensures
        forall|i: int|
            0 <= i < points.len() ==> (#[trigger] points[i]).cumulative_freed <= highest_total(
                points,
            ),
        highest_total(points) == 1 || exists|i: int|
            0 <= i < points.len() && (#[trigger] points[i]).cumulative_freed == highest_total(
                points,
            ),
        highest_total(points) >= 1,
        forall|i: int|
            0 <= i < groups.len() ==> (#[trigger] groups[i]).freed + groups[i].trashed
                <= longest_bar(groups),
        longest_bar(groups) == 1 || exists|i: int|
            0 <= i < groups.len() && (#[trigger] groups[i]).freed + groups[i].trashed
                == longest_bar(groups),
        longest_bar(groups) >= 1,
    decreases points.len() + groups.len(),
{
    if points.len() > 0 {
        let fewer = points.drop_last();
        charts_are_scaled_by_their_largest(fewer, groups);
        assert(points[points.len() - 1] == points.last());
        assert forall|i: int| 0 <= i < points.len() implies (
        #[trigger] points[i]).cumulative_freed <= highest_total(points) by {
            if i < fewer.len() {
                assert(fewer[i] == points[i]);
            }
        }
        if highest_total(points) == highest_total(fewer) && highest_total(points) != 1 {
            let i = choose|i: int|
                0 <= i < fewer.len() && (#[trigger] fewer[i]).cumulative_freed == highest_total(
                    fewer,
                );
            assert(points[i] == fewer[i]);
        }
    } else if groups.len() > 0 {
        let fewer = groups.drop_last();
        charts_are_scaled_by_their_largest(points, fewer);
        assert(groups[groups.len() - 1] == groups.last());
        assert forall|i: int| 0 <= i < groups.len() implies (#[trigger] groups[i]).freed
            + groups[i].trashed <= longest_bar(groups) by {
            if i < fewer.len() {
                assert(fewer[i] == groups[i]);
            }
        }
        if longest_bar(groups) == longest_bar(fewer) && longest_bar(groups) != 1 {
            let i = choose|i: int|
                0 <= i < fewer.len() && (#[trigger] fewer[i]).freed + fewer[i].trashed
                    == longest_bar(fewer);
            assert(groups[i] == fewer[i]);
        }
    }
}

/// A table has one row for each of its items, in order.
pub proof fn every_item_has_its_row(
    groups: Seq<GroupStatsModel>,
    g: GroupStatsModel,
    longest: nat,
    triggers: Seq<TriggerStatsModel>,
    t: TriggerStatsModel,
    tops: Seq<TopItemModel>,
    top: TopItemModel,
    failures: Seq<FailureModel>,
    f: FailureModel,
    runs: Seq<RunSummaryModel>,
    r: RunSummaryModel,
    now: Moment,
)
    ensures
        bars_html(groups.push(g), longest) == bars_html(groups, longest) + bar_html(g, longest),
        trigger_rows(triggers.push(t)) == trigger_rows(triggers) + trigger_html(t),
        top_item_rows(tops.push(top), now) == top_item_rows(tops, now) + top_item_html(top, now),
        failure_rows(failures.push(f), now) == failure_rows(failures, now) + failure_html(f, now),
        run_rows(runs.push(r), now) == run_rows(runs, now) + run_html(r, now),
        bars_html(Seq::empty(), longest).len() == 0,
        trigger_rows(Seq::empty()).len() == 0,
        top_item_rows(Seq::empty(), now).len() == 0,
        failure_rows(Seq::empty(), now).len() == 0,
        run_rows(Seq::empty(), now).len() == 0,
{
    assert(groups.push(g).drop_last() =~= groups);
    assert(triggers.push(t).drop_last() =~= triggers);
    assert(tops.push(top).drop_last() =~= tops);
    assert(failures.push(f).drop_last() =~= failures);
    assert(runs.push(r).drop_last() =~= runs);
}

/// A row shows every figure of its item, with the text in it escaped.
pub proof fn a_row_shows_its_item(
    g: GroupStatsModel,
    longest: nat,
    t: TriggerStatsModel,
    top: TopItemModel,
    f: FailureModel,
    now: Moment,
)
    ensures
        has_part(bar_html(g, longest), escaped(g.title)),
        has_part(bar_html(g, longest), decimal(g.items)),
        has_part(bar_html(g, longest), percent_spec(g.freed, longest)),
        has_part(bar_html(g, longest), percent_spec(g.trashed, longest)),
        has_part(bar_html(g, longest), escaped(bytes_spec(g.freed))),
        g.trashed > 0 ==> has_part(bar_html(g, longest), bytes_spec(g.trashed)),
        has_part(trigger_html(t), escaped(t.label)),
        has_part(trigger_html(t), decimal(t.runs)),
        has_part(trigger_html(t), escaped(bytes_spec(t.freed))),
        has_part(top_item_html(top, now), escaped(top.label)),
        has_part(top_item_html(top, now), escaped(top.group.heading())),
        has_part(top_item_html(top, now), top.tier.name()),
        has_part(top_item_html(top, now), escaped(bytes_spec(top.bytes as nat))),
        has_part(
            top_item_html(top, now),
            escaped(age_phrase(days_between(top.started_at, now))),
        ),
        has_part(failure_html(f, now), escaped(f.label)),
        has_part(failure_html(f, now), escaped(f.provider)),
        has_part(failure_html(f, now), escaped(f.error)),
        has_part(failure_html(f, now), escaped(age_phrase(days_between(f.started_at, now)))),
{
    broadcast use group_parts_of_texts;
}

/// The row of a run shows when and by what it ran, its figures, and whether it went well.
pub proof fn a_row_shows_its_run(r: RunSummaryModel, now: Moment)
    ensures
        has_part(run_html(r, now), escaped(age_phrase(days_between(r.started_at, now)))),
        has_part(run_html(r, now), escaped(r.trigger.name())),
        has_part(run_html(r, now), escaped(bytes_spec(r.freed))),
        has_part(run_html(r, now), escaped(bytes_spec(r.trashed))),
        has_part(run_html(r, now), decimal(r.items)),
        has_part(run_html(r, now), decimal(r.failures)),
        r.dry_run ==> has_part(run_html(r, now), "<span class=\"pill\">dry run</span>"@),
        !r.dry_run && r.succeeded ==> has_part(
            run_html(r, now),
            "<span class=\"pill safe\">ok</span>"@,
        ),
        !r.dry_run && !r.succeeded ==> has_part(
            run_html(r, now),
            "<span class=\"pill caution\">failed</span>"@,
        ),
{
    broadcast use group_parts_of_texts;
}

/// The page holds the figures of the report and each of its tables.
pub proof fn the_page_holds_the_whole_report(
    report: HistoryReport,
    version: Seq<char>,
    plot: Seq<(Seq<char>, Seq<char>)>,
    now: Moment,
)
    ensures
        ({
            let page = page_html(report, version, plot, now);
            &&& has_part(page, escaped(version))
            &&& has_part(page, decimal(report.runs as nat))
            &&& has_part(page, decimal(report.dry_runs as nat))
            &&& has_part(page, escaped(bytes_spec(report.lifetime_freed as nat)))
            &&& has_part(page, escaped(bytes_spec(report.lifetime_trashed as nat)))
            &&& has_part(
                page,
                escaped(in_threes(decimal(report.lifetime_candidates_found as nat))),
            )
            &&& has_part(page, escaped(in_threes(decimal(report.real_runs as nat))))
            &&& has_part(page, escaped(in_threes(decimal(report.failed_items as nat))))
            &&& report.by_group@.len() > 0 ==> has_part(
                page,
                bars_html(views(report.by_group@), longest_bar(views(report.by_group@))),
            )
            &&& has_part(page, trigger_rows(views(report.by_trigger@)))
            &&& report.top_items@.len() > 0 ==> has_part(
                page,
                top_item_rows(views(report.top_items@), now),
            )
            &&& report.failures@.len() > 0 ==> has_part(
                page,
                failure_rows(views(report.failures@), now),
            )
            &&& has_part(page, run_rows(views(report.runs_detail@), now))
            &&& report.timeline@.len() >= 2 ==> has_part(page, line_path(plot)) && has_part(
                page,
                dots_html(report.timeline@, plot, now),
            )
        }),
{
    broadcast use group_parts_of_texts;
    let page = page_html(report, version, plot, now);
    let stats = stats_html(report);
    assert(has_part(stats, escaped(bytes_spec(report.lifetime_freed as nat))));
    assert(has_part(stats, escaped(bytes_spec(report.lifetime_trashed as nat))));
    assert(has_part(
        stats,
        escaped(in_threes(decimal(report.lifetime_candidates_found as nat))),
    ));
    assert(has_part(stats, escaped(in_threes(decimal(report.real_runs as nat)))));
    assert(has_part(stats, escaped(in_threes(decimal(report.failed_items as nat)))));
}

} // verus!
