//! The markup of the history page: its own tags, and no others, whatever the history holds.
use vstd::prelude::*;
use vstd::string::*;
use vstd::arithmetic::power2::pow2;
use crate::cli::report_html::{
    STYLE, bar_html, bars_html, by_group_html, by_trigger_html, card_html, dots_html, escaped,
    escaped_text_holds_no_markup, failure_rows, failures_html, header_html, in_threes, line_path,
    longest_bar, open_area, page_html, run_rows, runs_html, stats_html, status_html,
    timeline_html, top_item_rows, top_items_html, trigger_rows,
};
use crate::format::{bytes_spec, fixed, percent_spec, unit_name, unit_of, unit_size};
use crate::model::{Moment, Tier};
use crate::number::{as_double, nearest, round_half_even, ten_to, times};
use crate::report::{
    FailureModel, GroupStatsModel, HistoryReport, RunSummaryModel, TimelinePoint, TopItemModel,
    TriggerStatsModel,
};
use crate::text::{
    decimal, has_part, lemma_decimal_digits, lemma_zero_padded_digits, stands_at, views,
    zero_padded,
};

verus! {

/// The tags that the page is made of, up to what ends their names.
pub open spec fn own_tags() -> Seq<Seq<char>> {
    seq![
        "<header>"@,
        "<h1>"@,
        "</h1>"@,
        "<p "@,
        "</p>"@,
        "</header>"@,
        "<div "@,
        "</div>"@,
        "<section "@,
        "</section>"@,
        "<circle "@,
        "<title>"@,
        "</title>"@,
        "</circle>"@,
        "<section>"@,
        "<h2>"@,
        "</h2>"@,
        "<svg "@,
        "<line "@,
        "<path "@,
        "</svg>"@,
        "<span "@,
        "</span>"@,
        "<tr>"@,
        "<td>"@,
        "</td>"@,
        "<td "@,
        "</tr>"@,
        "<table>"@,
        "<thead>"@,
        "<th>"@,
        "</th>"@,
        "</thead>"@,
        "<tbody>"@,
        "</tbody>"@,
        "</table>"@,
        "<tr "@,
        "<!doctype "@,
        "<html "@,
        "<head>"@,
        "<meta "@,
        "<style>"@,
        "</style>"@,
        "</head>"@,
        "<body>"@,
        "</body>"@,
        "</html>"@,
    ]
}

/// One of the page's own tags stands at that position.
pub open spec fn is_own_tag(s: Seq<char>, i: int) -> bool {
    exists|k: int|
        0 <= k < own_tags().len() && i + own_tags()[k].len() <= s.len() && stands_at(
            s,
            i,
            #[trigger] own_tags()[k],
        )
}

/// Every tag that is opened in the text is one of the page's own.
#[verifier::opaque]
pub open spec fn holds_own_tags_only(s: Seq<char>) -> bool {
    forall|i: int| 0 <= i < s.len() && #[trigger] s[i] == '<' ==> is_own_tag(s, i)
}

/// A text without `<` opens no tag.
proof fn lemma_plain(s: Seq<char>)
    requires
        forall|i: int| 0 <= i < s.len() ==> #[trigger] s[i] != '<',
    ensures
        holds_own_tags_only(s),
{
    reveal(holds_own_tags_only);
}

broadcast proof fn lemma_sum(a: Seq<char>, b: Seq<char>)
    requires
        holds_own_tags_only(a),
        holds_own_tags_only(b),
    ensures
        #[trigger] holds_own_tags_only(a + b),
{
    reveal(holds_own_tags_only);
    let s = a + b;
    assert forall|i: int| 0 <= i < s.len() && #[trigger] s[i] == '<' implies is_own_tag(s, i) by {
        if i < a.len() {
            assert(a[i] == '<');
            let k = choose|k: int|
                0 <= k < own_tags().len() && i + own_tags()[k].len() <= a.len() && stands_at(
                    a,
                    i,
                    #[trigger] own_tags()[k],
                );
            let n = own_tags()[k].len();
            assert(s.subrange(i, i + n) =~= a.subrange(i, i + n));
            assert(stands_at(s, i, own_tags()[k]));
        } else {
            let j = i - a.len();
            assert(b[j] == '<');
            let k = choose|k: int|
                0 <= k < own_tags().len() && j + own_tags()[k].len() <= b.len() && stands_at(
                    b,
                    j,
                    #[trigger] own_tags()[k],
                );
            let n = own_tags()[k].len();
            assert(s.subrange(i, i + n) =~= b.subrange(j, j + n));
            assert(stands_at(s, i, own_tags()[k]));
        }
    }
}

broadcast proof fn lemma_nothing()
    ensures
        #[trigger] holds_own_tags_only(Seq::empty()),
{
    reveal(holds_own_tags_only);
}

broadcast proof fn lemma_escaped(s: Seq<char>)
    ensures
        #[trigger] holds_own_tags_only(escaped(s)),
{
    assert forall|i: int| 0 <= i < escaped(s).len() implies #[trigger] escaped(s)[i] != '<' by {
        escaped_text_holds_no_markup(s, i);
    }
    lemma_plain(escaped(s));
}

broadcast proof fn lemma_decimal(n: nat)
    ensures
        #[trigger] holds_own_tags_only(decimal(n)),
{
    lemma_decimal_digits(n);
    assert forall|i: int| 0 <= i < decimal(n).len() implies #[trigger] decimal(n)[i] != '<' by {
        assert('0' <= decimal(n)[i] <= '9');
    }
    lemma_plain(decimal(n));
}

broadcast group group_markup {
    lemma_sum,
    lemma_nothing,
    lemma_escaped,
    lemma_decimal,
}

proof fn lemma_fixed(num: nat, den: nat, places: nat)
    ensures
        holds_own_tags_only(fixed(num, den, places)),
{
    broadcast use group_markup;

    let scaled = round_half_even(num * ten_to(places), den);
    let rest = zero_padded(scaled % ten_to(places), places);
    lemma_zero_padded_digits(scaled % ten_to(places), places);
    assert forall|i: int| 0 <= i < rest.len() implies #[trigger] rest[i] != '<' by {
        assert('0' <= rest[i] <= '9');
    }
    lemma_plain(rest);
    reveal_strlit(".");
    lemma_plain("."@);
    lemma_decimal(scaled);
    lemma_decimal(scaled / ten_to(places));
    lemma_sum(decimal(scaled / ten_to(places)), "."@);
    lemma_sum(decimal(scaled / ten_to(places)) + "."@, rest);
}

proof fn lemma_percent(part: nat, whole: nat)
    ensures
        holds_own_tags_only(percent_spec(part, whole)),
{
    let b = times(
        nearest(
            as_double(part),
            as_double(whole),
        ),
        100,
    );
    if b.exponent >= 0 {
        lemma_fixed(b.significand * pow2(b.exponent as nat), 1, 2);
    } else {
        lemma_fixed(b.significand, pow2((-b.exponent) as nat), 2);
    }
}

proof fn lemma_bytes(n: nat)
    ensures
        holds_own_tags_only(bytes_spec(n)),
{
    broadcast use group_markup;

    reveal_strlit(" B");
    reveal_strlit(" ");
    reveal_strlit("B");
    reveal_strlit("KB");
    reveal_strlit("MB");
    reveal_strlit("GB");
    reveal_strlit("TB");
    reveal_strlit("PB");
    lemma_plain(" B"@);
    lemma_plain(" "@);
    let v = as_double(n);
    let k = unit_of(v);
    lemma_plain(unit_name(k));
    lemma_fixed(v, unit_size(k), 0);
    lemma_fixed(v, unit_size(k), 1);
    lemma_fixed(v, unit_size(k), 2);
}

proof fn lemma_tag_at(s: Seq<char>, i: int, k: int)
    requires
        0 <= k < own_tags().len(),
        0 <= i <= s.len() - own_tags()[k].len(),
        forall|j: int| 0 <= j < own_tags()[k].len() ==> s[i + j] == #[trigger] own_tags()[k][j],
    ensures
        is_own_tag(s, i),
{
    assert(s.subrange(i, i + own_tags()[k].len()) =~= own_tags()[k]);
    assert(stands_at(s, i, own_tags()[k]));
}

proof fn lemma_own_tags()
    ensures
        own_tags().len() == 47,
        own_tags()[0] == "<header>"@,
        own_tags()[1] == "<h1>"@,
        own_tags()[2] == "</h1>"@,
        own_tags()[3] == "<p "@,
        own_tags()[4] == "</p>"@,
        own_tags()[5] == "</header>"@,
        own_tags()[6] == "<div "@,
        own_tags()[7] == "</div>"@,
        own_tags()[8] == "<section "@,
        own_tags()[9] == "</section>"@,
        own_tags()[10] == "<circle "@,
        own_tags()[11] == "<title>"@,
        own_tags()[12] == "</title>"@,
        own_tags()[13] == "</circle>"@,
        own_tags()[14] == "<section>"@,
        own_tags()[15] == "<h2>"@,
        own_tags()[16] == "</h2>"@,
        own_tags()[17] == "<svg "@,
        own_tags()[18] == "<line "@,
        own_tags()[19] == "<path "@,
        own_tags()[20] == "</svg>"@,
        own_tags()[21] == "<span "@,
        own_tags()[22] == "</span>"@,
        own_tags()[23] == "<tr>"@,
        own_tags()[24] == "<td>"@,
        own_tags()[25] == "</td>"@,
        own_tags()[26] == "<td "@,
        own_tags()[27] == "</tr>"@,
        own_tags()[28] == "<table>"@,
        own_tags()[29] == "<thead>"@,
        own_tags()[30] == "<th>"@,
        own_tags()[31] == "</th>"@,
        own_tags()[32] == "</thead>"@,
        own_tags()[33] == "<tbody>"@,
        own_tags()[34] == "</tbody>"@,
        own_tags()[35] == "</table>"@,
        own_tags()[36] == "<tr "@,
        own_tags()[37] == "<!doctype "@,
        own_tags()[38] == "<html "@,
        own_tags()[39] == "<head>"@,
        own_tags()[40] == "<meta "@,
        own_tags()[41] == "<style>"@,
        own_tags()[42] == "</style>"@,
        own_tags()[43] == "</head>"@,
        own_tags()[44] == "<body>"@,
        own_tags()[45] == "</body>"@,
        own_tags()[46] == "</html>"@,
{
}

#[verifier::rlimit(60)]
proof fn lemma_text_of_header()
    ensures
        holds_own_tags_only("<header><h1>reclaim history report</h1><p class=\"dim\">Generated "@),
{
    reveal_strlit("<header><h1>reclaim history report</h1><p class=\"dim\">Generated ");
    reveal(holds_own_tags_only);
    lemma_own_tags();
    let s = "<header><h1>reclaim history report</h1><p class=\"dim\">Generated "@;
    reveal_strlit("<header>");
    reveal_strlit("<h1>");
    reveal_strlit("</h1>");
    reveal_strlit("<p ");
    lemma_tag_at(s, 0, 0);
    lemma_tag_at(s, 8, 1);
    lemma_tag_at(s, 34, 2);
    lemma_tag_at(s, 39, 3);
}

proof fn lemma_texts_of_header()
    ensures
        holds_own_tags_only("<header><h1>reclaim history report</h1><p class=\"dim\">Generated "@),
        holds_own_tags_only(" · reclaim "@),
        holds_own_tags_only(" · "@),
        holds_own_tags_only(" run(s) in this journal ("@),
        holds_own_tags_only(" dry run"@),
        holds_own_tags_only(""@),
        holds_own_tags_only("s"@),
        holds_own_tags_only(")</p></header>\n"@),
{
    lemma_text_of_header();
    assert(holds_own_tags_only(" · reclaim "@)) by {
        reveal_strlit(" · reclaim ");
        lemma_plain(" · reclaim "@);
    }
    assert(holds_own_tags_only(" · "@)) by {
        reveal_strlit(" · ");
        lemma_plain(" · "@);
    }
    assert(holds_own_tags_only(" run(s) in this journal ("@)) by {
        reveal_strlit(" run(s) in this journal (");
        lemma_plain(" run(s) in this journal ("@);
    }
    assert(holds_own_tags_only(" dry run"@)) by {
        reveal_strlit(" dry run");
        lemma_plain(" dry run"@);
    }
    assert(holds_own_tags_only(""@)) by {
        reveal_strlit("");
        lemma_plain(""@);
    }
    assert(holds_own_tags_only("s"@)) by {
        reveal_strlit("s");
        lemma_plain("s"@);
    }
    assert(holds_own_tags_only(")</p></header>\n"@)) by {
        reveal_strlit(")</p></header>\n");
        reveal(holds_own_tags_only);
        lemma_own_tags();
        let s = ")</p></header>\n"@;
        reveal_strlit("</p>");
        reveal_strlit("</header>");
        lemma_tag_at(s, 1, 4);
        lemma_tag_at(s, 5, 5);
    }
}

proof fn lemma_texts_of_cards()
    ensures
        holds_own_tags_only("<div class=\"card "@),
        holds_own_tags_only("\"><div class=\"card-value\">"@),
        holds_own_tags_only("</div><div class=\"card-label\">"@),
        holds_own_tags_only("</div></div>\n"@),
        holds_own_tags_only("<section class=\"stats\">"@),
        holds_own_tags_only("Lifetime freed"@),
        holds_own_tags_only("safe"@),
        holds_own_tags_only("In the Trash"@),
        holds_own_tags_only("review"@),
        holds_own_tags_only("Items found"@),
        holds_own_tags_only(""@),
        holds_own_tags_only("Real runs"@),
        holds_own_tags_only("Failed items"@),
        holds_own_tags_only("caution"@),
        holds_own_tags_only("</section>"@),
{
    assert(holds_own_tags_only("<div class=\"card "@)) by {
        reveal_strlit("<div class=\"card ");
        reveal(holds_own_tags_only);
        lemma_own_tags();
        let s = "<div class=\"card "@;
        reveal_strlit("<div ");
        lemma_tag_at(s, 0, 6);
    }
    assert(holds_own_tags_only("\"><div class=\"card-value\">"@)) by {
        reveal_strlit("\"><div class=\"card-value\">");
        reveal(holds_own_tags_only);
        lemma_own_tags();
        let s = "\"><div class=\"card-value\">"@;
        reveal_strlit("<div ");
        lemma_tag_at(s, 2, 6);
    }
    assert(holds_own_tags_only("</div><div class=\"card-label\">"@)) by {
        reveal_strlit("</div><div class=\"card-label\">");
        reveal(holds_own_tags_only);
        lemma_own_tags();
        let s = "</div><div class=\"card-label\">"@;
        reveal_strlit("</div>");
        reveal_strlit("<div ");
        lemma_tag_at(s, 0, 7);
        lemma_tag_at(s, 6, 6);
    }
    assert(holds_own_tags_only("</div></div>\n"@)) by {
        reveal_strlit("</div></div>\n");
        reveal(holds_own_tags_only);
        lemma_own_tags();
        let s = "</div></div>\n"@;
        reveal_strlit("</div>");
        lemma_tag_at(s, 0, 7);
        lemma_tag_at(s, 6, 7);
    }
    assert(holds_own_tags_only("<section class=\"stats\">"@)) by {
        reveal_strlit("<section class=\"stats\">");
        reveal(holds_own_tags_only);
        lemma_own_tags();
        let s = "<section class=\"stats\">"@;
        reveal_strlit("<section ");
        lemma_tag_at(s, 0, 8);
    }
    assert(holds_own_tags_only("Lifetime freed"@)) by {
        reveal_strlit("Lifetime freed");
        lemma_plain("Lifetime freed"@);
    }
    assert(holds_own_tags_only("safe"@)) by {
        reveal_strlit("safe");
        lemma_plain("safe"@);
    }
    assert(holds_own_tags_only("In the Trash"@)) by {
        reveal_strlit("In the Trash");
        lemma_plain("In the Trash"@);
    }
    assert(holds_own_tags_only("review"@)) by {
        reveal_strlit("review");
        lemma_plain("review"@);
    }
    assert(holds_own_tags_only("Items found"@)) by {
        reveal_strlit("Items found");
        lemma_plain("Items found"@);
    }
    assert(holds_own_tags_only(""@)) by {
        reveal_strlit("");
        lemma_plain(""@);
    }
    assert(holds_own_tags_only("Real runs"@)) by {
        reveal_strlit("Real runs");
        lemma_plain("Real runs"@);
    }
    assert(holds_own_tags_only("Failed items"@)) by {
        reveal_strlit("Failed items");
        lemma_plain("Failed items"@);
    }
    assert(holds_own_tags_only("caution"@)) by {
        reveal_strlit("caution");
        lemma_plain("caution"@);
    }
    assert(holds_own_tags_only("</section>"@)) by {
        reveal_strlit("</section>");
        reveal(holds_own_tags_only);
        lemma_own_tags();
        let s = "</section>"@;
        reveal_strlit("</section>");
        lemma_tag_at(s, 0, 9);
    }
}

proof fn lemma_texts_of_lines()
    ensures
        holds_own_tags_only("M"@),
        holds_own_tags_only(" L"@),
        holds_own_tags_only(","@),
        holds_own_tags_only(",152.0 L"@),
{
    assert(holds_own_tags_only("M"@)) by {
        reveal_strlit("M");
        lemma_plain("M"@);
    }
    assert(holds_own_tags_only(" L"@)) by {
        reveal_strlit(" L");
        lemma_plain(" L"@);
    }
    assert(holds_own_tags_only(","@)) by {
        reveal_strlit(",");
        lemma_plain(","@);
    }
    assert(holds_own_tags_only(",152.0 L"@)) by {
        reveal_strlit(",152.0 L");
        lemma_plain(",152.0 L"@);
    }
}

proof fn lemma_texts_of_dots()
    ensures
        holds_own_tags_only("<circle cx=\""@),
        holds_own_tags_only("\" cy=\""@),
        holds_own_tags_only("\" r=\"3\" class=\"chart-dot\"><title>"@),
        holds_own_tags_only(" · "@),
        holds_own_tags_only(" freed (running total "@),
        holds_own_tags_only(")</title></circle>\n"@),
{
    assert(holds_own_tags_only("<circle cx=\""@)) by {
        reveal_strlit("<circle cx=\"");
        reveal(holds_own_tags_only);
        lemma_own_tags();
        let s = "<circle cx=\""@;
        reveal_strlit("<circle ");
        lemma_tag_at(s, 0, 10);
    }
    assert(holds_own_tags_only("\" cy=\""@)) by {
        reveal_strlit("\" cy=\"");
        lemma_plain("\" cy=\""@);
    }
    assert(holds_own_tags_only("\" r=\"3\" class=\"chart-dot\"><title>"@)) by {
        reveal_strlit("\" r=\"3\" class=\"chart-dot\"><title>");
        reveal(holds_own_tags_only);
        lemma_own_tags();
        let s = "\" r=\"3\" class=\"chart-dot\"><title>"@;
        reveal_strlit("<title>");
        lemma_tag_at(s, 26, 11);
    }
    assert(holds_own_tags_only(" · "@)) by {
        reveal_strlit(" · ");
        lemma_plain(" · "@);
    }
    assert(holds_own_tags_only(" freed (running total "@)) by {
        reveal_strlit(" freed (running total ");
        lemma_plain(" freed (running total "@);
    }
    assert(holds_own_tags_only(")</title></circle>\n"@)) by {
        reveal_strlit(")</title></circle>\n");
        reveal(holds_own_tags_only);
        lemma_own_tags();
        let s = ")</title></circle>\n"@;
        reveal_strlit("</title>");
        reveal_strlit("</circle>");
        lemma_tag_at(s, 1, 12);
        lemma_tag_at(s, 9, 13);
    }
}

#[verifier::rlimit(60)]
proof fn lemma_text_of_timeline()
    ensures
        holds_own_tags_only("<section><h2>Freed over time</h2>"@),
{
    reveal_strlit("<section><h2>Freed over time</h2>");
    reveal(holds_own_tags_only);
    lemma_own_tags();
    let s = "<section><h2>Freed over time</h2>"@;
    reveal_strlit("<section>");
    reveal_strlit("<h2>");
    reveal_strlit("</h2>");
    lemma_tag_at(s, 0, 14);
    lemma_tag_at(s, 9, 15);
    lemma_tag_at(s, 28, 16);
}

#[verifier::rlimit(60)]
proof fn lemma_text_of_timeline_2()
    ensures
        holds_own_tags_only("<p class=\"dim\">Not enough real runs yet to plot a trend.</p></section>"@),
{
    reveal_strlit("<p class=\"dim\">Not enough real runs yet to plot a trend.</p></section>");
    reveal(holds_own_tags_only);
    lemma_own_tags();
    let s = "<p class=\"dim\">Not enough real runs yet to plot a trend.</p></section>"@;
    reveal_strlit("<p ");
    reveal_strlit("</p>");
    reveal_strlit("</section>");
    lemma_tag_at(s, 0, 3);
    lemma_tag_at(s, 56, 4);
    lemma_tag_at(s, 60, 9);
}

#[verifier::rlimit(60)]
proof fn lemma_text_of_timeline_3()
    ensures
        holds_own_tags_only("<svg viewBox=\"0 0 720 180\" class=\"chart\" role=\"img\" aria-label=\"Cumulative bytes freed over time\"><line x1=\"28\" y1=\"152.0\" x2=\"692.0\" y2=\"152.0\" class=\"axis\" /><path d=\""@),
{
    reveal_strlit("<svg viewBox=\"0 0 720 180\" class=\"chart\" role=\"img\" aria-label=\"Cumulative bytes freed over time\"><line x1=\"28\" y1=\"152.0\" x2=\"692.0\" y2=\"152.0\" class=\"axis\" /><path d=\"");
    reveal(holds_own_tags_only);
    lemma_own_tags();
    let s = "<svg viewBox=\"0 0 720 180\" class=\"chart\" role=\"img\" aria-label=\"Cumulative bytes freed over time\"><line x1=\"28\" y1=\"152.0\" x2=\"692.0\" y2=\"152.0\" class=\"axis\" /><path d=\""@;
    reveal_strlit("<svg ");
    reveal_strlit("<line ");
    reveal_strlit("<path ");
    lemma_tag_at(s, 0, 17);
    lemma_tag_at(s, 98, 18);
    lemma_tag_at(s, 160, 19);
}

proof fn lemma_texts_of_timeline()
    ensures
        holds_own_tags_only("<section><h2>Freed over time</h2>"@),
        holds_own_tags_only("<p class=\"dim\">Not enough real runs yet to plot a trend.</p></section>"@),
        holds_own_tags_only("<svg viewBox=\"0 0 720 180\" class=\"chart\" role=\"img\" aria-label=\"Cumulative bytes freed over time\"><line x1=\"28\" y1=\"152.0\" x2=\"692.0\" y2=\"152.0\" class=\"axis\" /><path d=\""@),
        holds_own_tags_only(" L"@),
        holds_own_tags_only(",152.0 Z"@),
        holds_own_tags_only("\" class=\"chart-area\" /><path d=\""@),
        holds_own_tags_only("\" class=\"chart-line\" />\n"@),
        holds_own_tags_only("</svg>"@),
        holds_own_tags_only("<p class=\"dim small\">"@),
        holds_own_tags_only(" total across "@),
        holds_own_tags_only(" real run(s), from "@),
        holds_own_tags_only(" to "@),
        holds_own_tags_only("</p></section>\n"@),
{
    lemma_text_of_timeline();
    lemma_text_of_timeline_2();
    lemma_text_of_timeline_3();
    assert(holds_own_tags_only(" L"@)) by {
        reveal_strlit(" L");
        lemma_plain(" L"@);
    }
    assert(holds_own_tags_only(",152.0 Z"@)) by {
        reveal_strlit(",152.0 Z");
        lemma_plain(",152.0 Z"@);
    }
    assert(holds_own_tags_only("\" class=\"chart-area\" /><path d=\""@)) by {
        reveal_strlit("\" class=\"chart-area\" /><path d=\"");
        reveal(holds_own_tags_only);
        lemma_own_tags();
        let s = "\" class=\"chart-area\" /><path d=\""@;
        reveal_strlit("<path ");
        lemma_tag_at(s, 23, 19);
    }
    assert(holds_own_tags_only("\" class=\"chart-line\" />\n"@)) by {
        reveal_strlit("\" class=\"chart-line\" />\n");
        lemma_plain("\" class=\"chart-line\" />\n"@);
    }
    assert(holds_own_tags_only("</svg>"@)) by {
        reveal_strlit("</svg>");
        reveal(holds_own_tags_only);
        lemma_own_tags();
        let s = "</svg>"@;
        reveal_strlit("</svg>");
        lemma_tag_at(s, 0, 20);
    }
    assert(holds_own_tags_only("<p class=\"dim small\">"@)) by {
        reveal_strlit("<p class=\"dim small\">");
        reveal(holds_own_tags_only);
        lemma_own_tags();
        let s = "<p class=\"dim small\">"@;
        reveal_strlit("<p ");
        lemma_tag_at(s, 0, 3);
    }
    assert(holds_own_tags_only(" total across "@)) by {
        reveal_strlit(" total across ");
        lemma_plain(" total across "@);
    }
    assert(holds_own_tags_only(" real run(s), from "@)) by {
        reveal_strlit(" real run(s), from ");
        lemma_plain(" real run(s), from "@);
    }
    assert(holds_own_tags_only(" to "@)) by {
        reveal_strlit(" to ");
        lemma_plain(" to "@);
    }
    assert(holds_own_tags_only("</p></section>\n"@)) by {
        reveal_strlit("</p></section>\n");
        reveal(holds_own_tags_only);
        lemma_own_tags();
        let s = "</p></section>\n"@;
        reveal_strlit("</p>");
        reveal_strlit("</section>");
        lemma_tag_at(s, 0, 4);
        lemma_tag_at(s, 4, 9);
    }
}

#[verifier::rlimit(60)]
proof fn lemma_text_of_bars()
    ensures
        holds_own_tags_only(")</span></div><div class=\"bar-track\"><div class=\"bar-fill freed\" style=\"width:"@),
{
    reveal_strlit(")</span></div><div class=\"bar-track\"><div class=\"bar-fill freed\" style=\"width:");
    reveal(holds_own_tags_only);
    lemma_own_tags();
    let s = ")</span></div><div class=\"bar-track\"><div class=\"bar-fill freed\" style=\"width:"@;
    reveal_strlit("</span>");
    reveal_strlit("</div>");
    reveal_strlit("<div ");
    lemma_tag_at(s, 1, 22);
    lemma_tag_at(s, 8, 7);
    lemma_tag_at(s, 14, 6);
    lemma_tag_at(s, 37, 6);
}

#[verifier::rlimit(60)]
proof fn lemma_text_of_bars_2()
    ensures
        holds_own_tags_only("%\"></div></div><div class=\"bar-value\">"@),
{
    reveal_strlit("%\"></div></div><div class=\"bar-value\">");
    reveal(holds_own_tags_only);
    lemma_own_tags();
    let s = "%\"></div></div><div class=\"bar-value\">"@;
    reveal_strlit("</div>");
    reveal_strlit("<div ");
    lemma_tag_at(s, 3, 7);
    lemma_tag_at(s, 9, 7);
    lemma_tag_at(s, 15, 6);
}

proof fn lemma_texts_of_bars()
    ensures
        holds_own_tags_only("<div class=\"bar-row\"><div class=\"bar-label\">"@),
        holds_own_tags_only(" <span class=\"dim small\">("@),
        holds_own_tags_only(" item"@),
        holds_own_tags_only(""@),
        holds_own_tags_only("s"@),
        holds_own_tags_only(")</span></div><div class=\"bar-track\"><div class=\"bar-fill freed\" style=\"width:"@),
        holds_own_tags_only("%\"></div><div class=\"bar-fill trashed\" style=\"width:"@),
        holds_own_tags_only("%\"></div></div><div class=\"bar-value\">"@),
        holds_own_tags_only(" <span class=\"dim small\">+"@),
        holds_own_tags_only(" trashed</span>"@),
        holds_own_tags_only("</div></div>\n"@),
{
    assert(holds_own_tags_only("<div class=\"bar-row\"><div class=\"bar-label\">"@)) by {
        reveal_strlit("<div class=\"bar-row\"><div class=\"bar-label\">");
        reveal(holds_own_tags_only);
        lemma_own_tags();
        let s = "<div class=\"bar-row\"><div class=\"bar-label\">"@;
        reveal_strlit("<div ");
        lemma_tag_at(s, 0, 6);
        lemma_tag_at(s, 21, 6);
    }
    assert(holds_own_tags_only(" <span class=\"dim small\">("@)) by {
        reveal_strlit(" <span class=\"dim small\">(");
        reveal(holds_own_tags_only);
        lemma_own_tags();
        let s = " <span class=\"dim small\">("@;
        reveal_strlit("<span ");
        lemma_tag_at(s, 1, 21);
    }
    assert(holds_own_tags_only(" item"@)) by {
        reveal_strlit(" item");
        lemma_plain(" item"@);
    }
    assert(holds_own_tags_only(""@)) by {
        reveal_strlit("");
        lemma_plain(""@);
    }
    assert(holds_own_tags_only("s"@)) by {
        reveal_strlit("s");
        lemma_plain("s"@);
    }
    lemma_text_of_bars();
    assert(holds_own_tags_only("%\"></div><div class=\"bar-fill trashed\" style=\"width:"@)) by {
        reveal_strlit("%\"></div><div class=\"bar-fill trashed\" style=\"width:");
        reveal(holds_own_tags_only);
        lemma_own_tags();
        let s = "%\"></div><div class=\"bar-fill trashed\" style=\"width:"@;
        reveal_strlit("</div>");
        reveal_strlit("<div ");
        lemma_tag_at(s, 3, 7);
        lemma_tag_at(s, 9, 6);
    }
    lemma_text_of_bars_2();
    assert(holds_own_tags_only(" <span class=\"dim small\">+"@)) by {
        reveal_strlit(" <span class=\"dim small\">+");
        reveal(holds_own_tags_only);
        lemma_own_tags();
        let s = " <span class=\"dim small\">+"@;
        reveal_strlit("<span ");
        lemma_tag_at(s, 1, 21);
    }
    assert(holds_own_tags_only(" trashed</span>"@)) by {
        reveal_strlit(" trashed</span>");
        reveal(holds_own_tags_only);
        lemma_own_tags();
        let s = " trashed</span>"@;
        reveal_strlit("</span>");
        lemma_tag_at(s, 8, 22);
    }
    assert(holds_own_tags_only("</div></div>\n"@)) by {
        reveal_strlit("</div></div>\n");
        reveal(holds_own_tags_only);
        lemma_own_tags();
        let s = "</div></div>\n"@;
        reveal_strlit("</div>");
        lemma_tag_at(s, 0, 7);
        lemma_tag_at(s, 6, 7);
    }
}

#[verifier::rlimit(60)]
proof fn lemma_text_of_by_group()
    ensures
        holds_own_tags_only("<section><h2>By ecosystem</h2>"@),
{
    reveal_strlit("<section><h2>By ecosystem</h2>");
    reveal(holds_own_tags_only);
    lemma_own_tags();
    let s = "<section><h2>By ecosystem</h2>"@;
    reveal_strlit("<section>");
    reveal_strlit("<h2>");
    reveal_strlit("</h2>");
    lemma_tag_at(s, 0, 14);
    lemma_tag_at(s, 9, 15);
    lemma_tag_at(s, 25, 16);
}

#[verifier::rlimit(60)]
proof fn lemma_text_of_by_group_2()
    ensures
        holds_own_tags_only("<p class=\"dim\">Nothing reclaimed yet.</p></section>"@),
{
    reveal_strlit("<p class=\"dim\">Nothing reclaimed yet.</p></section>");
    reveal(holds_own_tags_only);
    lemma_own_tags();
    let s = "<p class=\"dim\">Nothing reclaimed yet.</p></section>"@;
    reveal_strlit("<p ");
    reveal_strlit("</p>");
    reveal_strlit("</section>");
    lemma_tag_at(s, 0, 3);
    lemma_tag_at(s, 37, 4);
    lemma_tag_at(s, 41, 9);
}

proof fn lemma_texts_of_by_group()
    ensures
        holds_own_tags_only("<section><h2>By ecosystem</h2>"@),
        holds_own_tags_only("<p class=\"dim\">Nothing reclaimed yet.</p></section>"@),
        holds_own_tags_only("<div class=\"bars\">"@),
        holds_own_tags_only("</div></section>"@),
{
    lemma_text_of_by_group();
    lemma_text_of_by_group_2();
    assert(holds_own_tags_only("<div class=\"bars\">"@)) by {
        reveal_strlit("<div class=\"bars\">");
        reveal(holds_own_tags_only);
        lemma_own_tags();
        let s = "<div class=\"bars\">"@;
        reveal_strlit("<div ");
        lemma_tag_at(s, 0, 6);
    }
    assert(holds_own_tags_only("</div></section>"@)) by {
        reveal_strlit("</div></section>");
        reveal(holds_own_tags_only);
        lemma_own_tags();
        let s = "</div></section>"@;
        reveal_strlit("</div>");
        reveal_strlit("</section>");
        lemma_tag_at(s, 0, 7);
        lemma_tag_at(s, 6, 9);
    }
}

proof fn lemma_texts_of_trigger_rows()
    ensures
        holds_own_tags_only("<tr><td>"@),
        holds_own_tags_only("</td><td class=\"num\">"@),
        holds_own_tags_only("</td></tr>\n"@),
{
    assert(holds_own_tags_only("<tr><td>"@)) by {
        reveal_strlit("<tr><td>");
        reveal(holds_own_tags_only);
        lemma_own_tags();
        let s = "<tr><td>"@;
        reveal_strlit("<tr>");
        reveal_strlit("<td>");
        lemma_tag_at(s, 0, 23);
        lemma_tag_at(s, 4, 24);
    }
    assert(holds_own_tags_only("</td><td class=\"num\">"@)) by {
        reveal_strlit("</td><td class=\"num\">");
        reveal(holds_own_tags_only);
        lemma_own_tags();
        let s = "</td><td class=\"num\">"@;
        reveal_strlit("</td>");
        reveal_strlit("<td ");
        lemma_tag_at(s, 0, 25);
        lemma_tag_at(s, 5, 26);
    }
    assert(holds_own_tags_only("</td></tr>\n"@)) by {
        reveal_strlit("</td></tr>\n");
        reveal(holds_own_tags_only);
        lemma_own_tags();
        let s = "</td></tr>\n"@;
        reveal_strlit("</td>");
        reveal_strlit("</tr>");
        lemma_tag_at(s, 0, 25);
        lemma_tag_at(s, 5, 27);
    }
}

#[verifier::rlimit(60)]
proof fn lemma_text_of_by_trigger()
    ensures
        holds_own_tags_only("<section><h2>By trigger</h2>\n<table><thead><tr><th>Trigger</th><th>Runs</th><th>Freed</th></tr></thead><tbody>"@),
{
    reveal_strlit("<section><h2>By trigger</h2>\n<table><thead><tr><th>Trigger</th><th>Runs</th><th>Freed</th></tr></thead><tbody>");
    reveal(holds_own_tags_only);
    lemma_own_tags();
    let s = "<section><h2>By trigger</h2>\n<table><thead><tr><th>Trigger</th><th>Runs</th><th>Freed</th></tr></thead><tbody>"@;
    reveal_strlit("<section>");
    reveal_strlit("<h2>");
    reveal_strlit("</h2>");
    reveal_strlit("<table>");
    reveal_strlit("<thead>");
    reveal_strlit("<tr>");
    reveal_strlit("<th>");
    reveal_strlit("</th>");
    reveal_strlit("</tr>");
    reveal_strlit("</thead>");
    reveal_strlit("<tbody>");
    lemma_tag_at(s, 0, 14);
    lemma_tag_at(s, 9, 15);
    lemma_tag_at(s, 23, 16);
    lemma_tag_at(s, 29, 28);
    lemma_tag_at(s, 36, 29);
    lemma_tag_at(s, 43, 23);
    lemma_tag_at(s, 47, 30);
    lemma_tag_at(s, 58, 31);
    lemma_tag_at(s, 63, 30);
    lemma_tag_at(s, 71, 31);
    lemma_tag_at(s, 76, 30);
    lemma_tag_at(s, 85, 31);
    lemma_tag_at(s, 90, 27);
    lemma_tag_at(s, 95, 32);
    lemma_tag_at(s, 103, 33);
}

#[verifier::rlimit(60)]
proof fn lemma_text_of_by_trigger_2()
    ensures
        holds_own_tags_only("</tbody></table></section>"@),
{
    reveal_strlit("</tbody></table></section>");
    reveal(holds_own_tags_only);
    lemma_own_tags();
    let s = "</tbody></table></section>"@;
    reveal_strlit("</tbody>");
    reveal_strlit("</table>");
    reveal_strlit("</section>");
    lemma_tag_at(s, 0, 34);
    lemma_tag_at(s, 8, 35);
    lemma_tag_at(s, 16, 9);
}

proof fn lemma_texts_of_by_trigger()
    ensures
        holds_own_tags_only("<section><h2>By trigger</h2>\n<table><thead><tr><th>Trigger</th><th>Runs</th><th>Freed</th></tr></thead><tbody>"@),
        holds_own_tags_only("</tbody></table></section>"@),
{
    lemma_text_of_by_trigger();
    lemma_text_of_by_trigger_2();
}

#[verifier::rlimit(60)]
proof fn lemma_text_of_top_item_rows()
    ensures
        holds_own_tags_only("</td><td><span class=\"pill "@),
{
    reveal_strlit("</td><td><span class=\"pill ");
    reveal(holds_own_tags_only);
    lemma_own_tags();
    let s = "</td><td><span class=\"pill "@;
    reveal_strlit("</td>");
    reveal_strlit("<td>");
    reveal_strlit("<span ");
    lemma_tag_at(s, 0, 25);
    lemma_tag_at(s, 5, 24);
    lemma_tag_at(s, 9, 21);
}

#[verifier::rlimit(60)]
proof fn lemma_text_of_top_item_rows_2()
    ensures
        holds_own_tags_only("</span></td><td class=\"num\">"@),
{
    reveal_strlit("</span></td><td class=\"num\">");
    reveal(holds_own_tags_only);
    lemma_own_tags();
    let s = "</span></td><td class=\"num\">"@;
    reveal_strlit("</span>");
    reveal_strlit("</td>");
    reveal_strlit("<td ");
    lemma_tag_at(s, 0, 22);
    lemma_tag_at(s, 7, 25);
    lemma_tag_at(s, 12, 26);
}

proof fn lemma_texts_of_top_item_rows()
    ensures
        holds_own_tags_only("<tr><td>"@),
        holds_own_tags_only("</td><td>"@),
        holds_own_tags_only("</td><td><span class=\"pill "@),
        holds_own_tags_only("\">"@),
        holds_own_tags_only("</span></td><td class=\"num\">"@),
        holds_own_tags_only("</td><td class=\"dim\">"@),
        holds_own_tags_only("</td></tr>\n"@),
{
    assert(holds_own_tags_only("<tr><td>"@)) by {
        reveal_strlit("<tr><td>");
        reveal(holds_own_tags_only);
        lemma_own_tags();
        let s = "<tr><td>"@;
        reveal_strlit("<tr>");
        reveal_strlit("<td>");
        lemma_tag_at(s, 0, 23);
        lemma_tag_at(s, 4, 24);
    }
    assert(holds_own_tags_only("</td><td>"@)) by {
        reveal_strlit("</td><td>");
        reveal(holds_own_tags_only);
        lemma_own_tags();
        let s = "</td><td>"@;
        reveal_strlit("</td>");
        reveal_strlit("<td>");
        lemma_tag_at(s, 0, 25);
        lemma_tag_at(s, 5, 24);
    }
    lemma_text_of_top_item_rows();
    assert(holds_own_tags_only("\">"@)) by {
        reveal_strlit("\">");
        lemma_plain("\">"@);
    }
    lemma_text_of_top_item_rows_2();
    assert(holds_own_tags_only("</td><td class=\"dim\">"@)) by {
        reveal_strlit("</td><td class=\"dim\">");
        reveal(holds_own_tags_only);
        lemma_own_tags();
        let s = "</td><td class=\"dim\">"@;
        reveal_strlit("</td>");
        reveal_strlit("<td ");
        lemma_tag_at(s, 0, 25);
        lemma_tag_at(s, 5, 26);
    }
    assert(holds_own_tags_only("</td></tr>\n"@)) by {
        reveal_strlit("</td></tr>\n");
        reveal(holds_own_tags_only);
        lemma_own_tags();
        let s = "</td></tr>\n"@;
        reveal_strlit("</td>");
        reveal_strlit("</tr>");
        lemma_tag_at(s, 0, 25);
        lemma_tag_at(s, 5, 27);
    }
}

#[verifier::rlimit(60)]
proof fn lemma_text_of_top_items()
    ensures
        holds_own_tags_only("<section><h2>Biggest reclaims ever</h2>"@),
{
    reveal_strlit("<section><h2>Biggest reclaims ever</h2>");
    reveal(holds_own_tags_only);
    lemma_own_tags();
    let s = "<section><h2>Biggest reclaims ever</h2>"@;
    reveal_strlit("<section>");
    reveal_strlit("<h2>");
    reveal_strlit("</h2>");
    lemma_tag_at(s, 0, 14);
    lemma_tag_at(s, 9, 15);
    lemma_tag_at(s, 34, 16);
}

#[verifier::rlimit(60)]
proof fn lemma_text_of_top_items_2()
    ensures
        holds_own_tags_only("<p class=\"dim\">Nothing reclaimed yet.</p></section>"@),
{
    reveal_strlit("<p class=\"dim\">Nothing reclaimed yet.</p></section>");
    reveal(holds_own_tags_only);
    lemma_own_tags();
    let s = "<p class=\"dim\">Nothing reclaimed yet.</p></section>"@;
    reveal_strlit("<p ");
    reveal_strlit("</p>");
    reveal_strlit("</section>");
    lemma_tag_at(s, 0, 3);
    lemma_tag_at(s, 37, 4);
    lemma_tag_at(s, 41, 9);
}

#[verifier::rlimit(60)]
proof fn lemma_text_of_top_items_3()
    ensures
        holds_own_tags_only("<table><thead><tr><th>What</th><th>Ecosystem</th><th>Tier</th><th>Size</th><th>When</th></tr></thead><tbody>"@),
{
    reveal_strlit("<table><thead><tr><th>What</th><th>Ecosystem</th><th>Tier</th><th>Size</th><th>When</th></tr></thead><tbody>");
    reveal(holds_own_tags_only);
    lemma_own_tags();
    let s = "<table><thead><tr><th>What</th><th>Ecosystem</th><th>Tier</th><th>Size</th><th>When</th></tr></thead><tbody>"@;
    reveal_strlit("<table>");
    reveal_strlit("<thead>");
    reveal_strlit("<tr>");
    reveal_strlit("<th>");
    reveal_strlit("</th>");
    reveal_strlit("</tr>");
    reveal_strlit("</thead>");
    reveal_strlit("<tbody>");
    lemma_tag_at(s, 0, 28);
    lemma_tag_at(s, 7, 29);
    lemma_tag_at(s, 14, 23);
    lemma_tag_at(s, 18, 30);
    lemma_tag_at(s, 26, 31);
    lemma_tag_at(s, 31, 30);
    lemma_tag_at(s, 44, 31);
    lemma_tag_at(s, 49, 30);
    lemma_tag_at(s, 57, 31);
    lemma_tag_at(s, 62, 30);
    lemma_tag_at(s, 70, 31);
    lemma_tag_at(s, 75, 30);
    lemma_tag_at(s, 83, 31);
    lemma_tag_at(s, 88, 27);
    lemma_tag_at(s, 93, 32);
    lemma_tag_at(s, 101, 33);
}

#[verifier::rlimit(60)]
proof fn lemma_text_of_top_items_4()
    ensures
        holds_own_tags_only("</tbody></table></section>"@),
{
    reveal_strlit("</tbody></table></section>");
    reveal(holds_own_tags_only);
    lemma_own_tags();
    let s = "</tbody></table></section>"@;
    reveal_strlit("</tbody>");
    reveal_strlit("</table>");
    reveal_strlit("</section>");
    lemma_tag_at(s, 0, 34);
    lemma_tag_at(s, 8, 35);
    lemma_tag_at(s, 16, 9);
}

proof fn lemma_texts_of_top_items()
    ensures
        holds_own_tags_only("<section><h2>Biggest reclaims ever</h2>"@),
        holds_own_tags_only("<p class=\"dim\">Nothing reclaimed yet.</p></section>"@),
        holds_own_tags_only("<table><thead><tr><th>What</th><th>Ecosystem</th><th>Tier</th><th>Size</th><th>When</th></tr></thead><tbody>"@),
        holds_own_tags_only("</tbody></table></section>"@),
{
    lemma_text_of_top_items();
    lemma_text_of_top_items_2();
    lemma_text_of_top_items_3();
    lemma_text_of_top_items_4();
}

proof fn lemma_texts_of_failure_rows()
    ensures
        holds_own_tags_only("<tr class=\"failure\"><td class=\"dim\">"@),
        holds_own_tags_only("</td><td>"@),
        holds_own_tags_only("</td><td class=\"dim\">"@),
        holds_own_tags_only("</td></tr>\n"@),
{
    assert(holds_own_tags_only("<tr class=\"failure\"><td class=\"dim\">"@)) by {
        reveal_strlit("<tr class=\"failure\"><td class=\"dim\">");
        reveal(holds_own_tags_only);
        lemma_own_tags();
        let s = "<tr class=\"failure\"><td class=\"dim\">"@;
        reveal_strlit("<tr ");
        reveal_strlit("<td ");
        lemma_tag_at(s, 0, 36);
        lemma_tag_at(s, 20, 26);
    }
    assert(holds_own_tags_only("</td><td>"@)) by {
        reveal_strlit("</td><td>");
        reveal(holds_own_tags_only);
        lemma_own_tags();
        let s = "</td><td>"@;
        reveal_strlit("</td>");
        reveal_strlit("<td>");
        lemma_tag_at(s, 0, 25);
        lemma_tag_at(s, 5, 24);
    }
    assert(holds_own_tags_only("</td><td class=\"dim\">"@)) by {
        reveal_strlit("</td><td class=\"dim\">");
        reveal(holds_own_tags_only);
        lemma_own_tags();
        let s = "</td><td class=\"dim\">"@;
        reveal_strlit("</td>");
        reveal_strlit("<td ");
        lemma_tag_at(s, 0, 25);
        lemma_tag_at(s, 5, 26);
    }
    assert(holds_own_tags_only("</td></tr>\n"@)) by {
        reveal_strlit("</td></tr>\n");
        reveal(holds_own_tags_only);
        lemma_own_tags();
        let s = "</td></tr>\n"@;
        reveal_strlit("</td>");
        reveal_strlit("</tr>");
        lemma_tag_at(s, 0, 25);
        lemma_tag_at(s, 5, 27);
    }
}

#[verifier::rlimit(60)]
proof fn lemma_text_of_failures()
    ensures
        holds_own_tags_only("<section><h2>Failures</h2>"@),
{
    reveal_strlit("<section><h2>Failures</h2>");
    reveal(holds_own_tags_only);
    lemma_own_tags();
    let s = "<section><h2>Failures</h2>"@;
    reveal_strlit("<section>");
    reveal_strlit("<h2>");
    reveal_strlit("</h2>");
    lemma_tag_at(s, 0, 14);
    lemma_tag_at(s, 9, 15);
    lemma_tag_at(s, 21, 16);
}

#[verifier::rlimit(60)]
proof fn lemma_text_of_failures_2()
    ensures
        holds_own_tags_only("<p class=\"dim\">No failures recorded. Nothing to investigate.</p></section>"@),
{
    reveal_strlit("<p class=\"dim\">No failures recorded. Nothing to investigate.</p></section>");
    reveal(holds_own_tags_only);
    lemma_own_tags();
    let s = "<p class=\"dim\">No failures recorded. Nothing to investigate.</p></section>"@;
    reveal_strlit("<p ");
    reveal_strlit("</p>");
    reveal_strlit("</section>");
    lemma_tag_at(s, 0, 3);
    lemma_tag_at(s, 60, 4);
    lemma_tag_at(s, 64, 9);
}

#[verifier::rlimit(60)]
proof fn lemma_text_of_failures_3()
    ensures
        holds_own_tags_only("<table><thead><tr><th>When</th><th>What</th><th>Provider</th><th>Error</th></tr></thead><tbody>"@),
{
    reveal_strlit("<table><thead><tr><th>When</th><th>What</th><th>Provider</th><th>Error</th></tr></thead><tbody>");
    reveal(holds_own_tags_only);
    lemma_own_tags();
    let s = "<table><thead><tr><th>When</th><th>What</th><th>Provider</th><th>Error</th></tr></thead><tbody>"@;
    reveal_strlit("<table>");
    reveal_strlit("<thead>");
    reveal_strlit("<tr>");
    reveal_strlit("<th>");
    reveal_strlit("</th>");
    reveal_strlit("</tr>");
    reveal_strlit("</thead>");
    reveal_strlit("<tbody>");
    lemma_tag_at(s, 0, 28);
    lemma_tag_at(s, 7, 29);
    lemma_tag_at(s, 14, 23);
    lemma_tag_at(s, 18, 30);
    lemma_tag_at(s, 26, 31);
    lemma_tag_at(s, 31, 30);
    lemma_tag_at(s, 39, 31);
    lemma_tag_at(s, 44, 30);
    lemma_tag_at(s, 56, 31);
    lemma_tag_at(s, 61, 30);
    lemma_tag_at(s, 70, 31);
    lemma_tag_at(s, 75, 27);
    lemma_tag_at(s, 80, 32);
    lemma_tag_at(s, 88, 33);
}

#[verifier::rlimit(60)]
proof fn lemma_text_of_failures_4()
    ensures
        holds_own_tags_only("</tbody></table></section>"@),
{
    reveal_strlit("</tbody></table></section>");
    reveal(holds_own_tags_only);
    lemma_own_tags();
    let s = "</tbody></table></section>"@;
    reveal_strlit("</tbody>");
    reveal_strlit("</table>");
    reveal_strlit("</section>");
    lemma_tag_at(s, 0, 34);
    lemma_tag_at(s, 8, 35);
    lemma_tag_at(s, 16, 9);
}

proof fn lemma_texts_of_failures()
    ensures
        holds_own_tags_only("<section><h2>Failures</h2>"@),
        holds_own_tags_only("<p class=\"dim\">No failures recorded. Nothing to investigate.</p></section>"@),
        holds_own_tags_only("<table><thead><tr><th>When</th><th>What</th><th>Provider</th><th>Error</th></tr></thead><tbody>"@),
        holds_own_tags_only("</tbody></table></section>"@),
{
    lemma_text_of_failures();
    lemma_text_of_failures_2();
    lemma_text_of_failures_3();
    lemma_text_of_failures_4();
}

proof fn lemma_texts_of_run_rows()
    ensures
        holds_own_tags_only("<span class=\"pill\">dry run</span>"@),
        holds_own_tags_only("<span class=\"pill safe\">ok</span>"@),
        holds_own_tags_only("<span class=\"pill caution\">failed</span>"@),
        holds_own_tags_only("<tr><td class=\"dim\">"@),
        holds_own_tags_only("</td><td>"@),
        holds_own_tags_only("</td><td class=\"num\">"@),
        holds_own_tags_only("</td></tr>\n"@),
{
    assert(holds_own_tags_only("<span class=\"pill\">dry run</span>"@)) by {
        reveal_strlit("<span class=\"pill\">dry run</span>");
        reveal(holds_own_tags_only);
        lemma_own_tags();
        let s = "<span class=\"pill\">dry run</span>"@;
        reveal_strlit("<span ");
        reveal_strlit("</span>");
        lemma_tag_at(s, 0, 21);
        lemma_tag_at(s, 26, 22);
    }
    assert(holds_own_tags_only("<span class=\"pill safe\">ok</span>"@)) by {
        reveal_strlit("<span class=\"pill safe\">ok</span>");
        reveal(holds_own_tags_only);
        lemma_own_tags();
        let s = "<span class=\"pill safe\">ok</span>"@;
        reveal_strlit("<span ");
        reveal_strlit("</span>");
        lemma_tag_at(s, 0, 21);
        lemma_tag_at(s, 26, 22);
    }
    assert(holds_own_tags_only("<span class=\"pill caution\">failed</span>"@)) by {
        reveal_strlit("<span class=\"pill caution\">failed</span>");
        reveal(holds_own_tags_only);
        lemma_own_tags();
        let s = "<span class=\"pill caution\">failed</span>"@;
        reveal_strlit("<span ");
        reveal_strlit("</span>");
        lemma_tag_at(s, 0, 21);
        lemma_tag_at(s, 33, 22);
    }
    assert(holds_own_tags_only("<tr><td class=\"dim\">"@)) by {
        reveal_strlit("<tr><td class=\"dim\">");
        reveal(holds_own_tags_only);
        lemma_own_tags();
        let s = "<tr><td class=\"dim\">"@;
        reveal_strlit("<tr>");
        reveal_strlit("<td ");
        lemma_tag_at(s, 0, 23);
        lemma_tag_at(s, 4, 26);
    }
    assert(holds_own_tags_only("</td><td>"@)) by {
        reveal_strlit("</td><td>");
        reveal(holds_own_tags_only);
        lemma_own_tags();
        let s = "</td><td>"@;
        reveal_strlit("</td>");
        reveal_strlit("<td>");
        lemma_tag_at(s, 0, 25);
        lemma_tag_at(s, 5, 24);
    }
    assert(holds_own_tags_only("</td><td class=\"num\">"@)) by {
        reveal_strlit("</td><td class=\"num\">");
        reveal(holds_own_tags_only);
        lemma_own_tags();
        let s = "</td><td class=\"num\">"@;
        reveal_strlit("</td>");
        reveal_strlit("<td ");
        lemma_tag_at(s, 0, 25);
        lemma_tag_at(s, 5, 26);
    }
    assert(holds_own_tags_only("</td></tr>\n"@)) by {
        reveal_strlit("</td></tr>\n");
        reveal(holds_own_tags_only);
        lemma_own_tags();
        let s = "</td></tr>\n"@;
        reveal_strlit("</td>");
        reveal_strlit("</tr>");
        lemma_tag_at(s, 0, 25);
        lemma_tag_at(s, 5, 27);
    }
}

#[verifier::rlimit(60)]
proof fn lemma_text_of_runs()
    ensures
        holds_own_tags_only("<section><h2>Every run</h2>\n<div class=\"scroll\"><table><thead><tr><th>When</th><th>Trigger</th><th>Freed</th><th>Trashed</th><th>Items</th><th>Failures</th><th>Status</th></tr></thead><tbody>"@),
{
    reveal_strlit("<section><h2>Every run</h2>\n<div class=\"scroll\"><table><thead><tr><th>When</th><th>Trigger</th><th>Freed</th><th>Trashed</th><th>Items</th><th>Failures</th><th>Status</th></tr></thead><tbody>");
    reveal(holds_own_tags_only);
    lemma_own_tags();
    let s = "<section><h2>Every run</h2>\n<div class=\"scroll\"><table><thead><tr><th>When</th><th>Trigger</th><th>Freed</th><th>Trashed</th><th>Items</th><th>Failures</th><th>Status</th></tr></thead><tbody>"@;
    reveal_strlit("<section>");
    reveal_strlit("<h2>");
    reveal_strlit("</h2>");
    reveal_strlit("<div ");
    reveal_strlit("<table>");
    reveal_strlit("<thead>");
    reveal_strlit("<tr>");
    reveal_strlit("<th>");
    reveal_strlit("</th>");
    reveal_strlit("</tr>");
    reveal_strlit("</thead>");
    reveal_strlit("<tbody>");
    lemma_tag_at(s, 0, 14);
    lemma_tag_at(s, 9, 15);
    lemma_tag_at(s, 22, 16);
    lemma_tag_at(s, 28, 6);
    lemma_tag_at(s, 48, 28);
    lemma_tag_at(s, 55, 29);
    lemma_tag_at(s, 62, 23);
    lemma_tag_at(s, 66, 30);
    lemma_tag_at(s, 74, 31);
    lemma_tag_at(s, 79, 30);
    lemma_tag_at(s, 90, 31);
    lemma_tag_at(s, 95, 30);
    lemma_tag_at(s, 104, 31);
    lemma_tag_at(s, 109, 30);
    lemma_tag_at(s, 120, 31);
    lemma_tag_at(s, 125, 30);
    lemma_tag_at(s, 134, 31);
    lemma_tag_at(s, 139, 30);
    lemma_tag_at(s, 151, 31);
    lemma_tag_at(s, 156, 30);
    lemma_tag_at(s, 166, 31);
    lemma_tag_at(s, 171, 27);
    lemma_tag_at(s, 176, 32);
    lemma_tag_at(s, 184, 33);
}

#[verifier::rlimit(60)]
proof fn lemma_text_of_runs_2()
    ensures
        holds_own_tags_only("</tbody></table></div></section>"@),
{
    reveal_strlit("</tbody></table></div></section>");
    reveal(holds_own_tags_only);
    lemma_own_tags();
    let s = "</tbody></table></div></section>"@;
    reveal_strlit("</tbody>");
    reveal_strlit("</table>");
    reveal_strlit("</div>");
    reveal_strlit("</section>");
    lemma_tag_at(s, 0, 34);
    lemma_tag_at(s, 8, 35);
    lemma_tag_at(s, 16, 7);
    lemma_tag_at(s, 22, 9);
}

proof fn lemma_texts_of_runs()
    ensures
        holds_own_tags_only("<section><h2>Every run</h2>\n<div class=\"scroll\"><table><thead><tr><th>When</th><th>Trigger</th><th>Freed</th><th>Trashed</th><th>Items</th><th>Failures</th><th>Status</th></tr></thead><tbody>"@),
        holds_own_tags_only("</tbody></table></div></section>"@),
{
    lemma_text_of_runs();
    lemma_text_of_runs_2();
}

#[verifier::rlimit(60)]
proof fn lemma_text_of_page()
    ensures
        holds_own_tags_only("<!doctype html>\n<html lang=\"en\"><head><meta charset=\"utf-8\"><meta name=\"viewport\" content=\"width=device-width, initial-scale=1\"><title>reclaim — history report</title>\n<style>"@),
{
    reveal_strlit("<!doctype html>\n<html lang=\"en\"><head><meta charset=\"utf-8\"><meta name=\"viewport\" content=\"width=device-width, initial-scale=1\"><title>reclaim — history report</title>\n<style>");
    reveal(holds_own_tags_only);
    lemma_own_tags();
    let s = "<!doctype html>\n<html lang=\"en\"><head><meta charset=\"utf-8\"><meta name=\"viewport\" content=\"width=device-width, initial-scale=1\"><title>reclaim — history report</title>\n<style>"@;
    reveal_strlit("<!doctype ");
    reveal_strlit("<html ");
    reveal_strlit("<head>");
    reveal_strlit("<meta ");
    reveal_strlit("<title>");
    reveal_strlit("</title>");
    reveal_strlit("<style>");
    lemma_tag_at(s, 0, 37);
    lemma_tag_at(s, 16, 38);
    lemma_tag_at(s, 32, 39);
    lemma_tag_at(s, 38, 40);
    lemma_tag_at(s, 60, 40);
    lemma_tag_at(s, 128, 11);
    lemma_tag_at(s, 159, 12);
    lemma_tag_at(s, 168, 41);
}

#[verifier::rlimit(60)]
proof fn lemma_text_of_page_2()
    ensures
        holds_own_tags_only("</style></head><body>"@),
{
    reveal_strlit("</style></head><body>");
    reveal(holds_own_tags_only);
    lemma_own_tags();
    let s = "</style></head><body>"@;
    reveal_strlit("</style>");
    reveal_strlit("</head>");
    reveal_strlit("<body>");
    lemma_tag_at(s, 0, 42);
    lemma_tag_at(s, 8, 43);
    lemma_tag_at(s, 15, 44);
}

proof fn lemma_texts_of_page()
    ensures
        holds_own_tags_only("<!doctype html>\n<html lang=\"en\"><head><meta charset=\"utf-8\"><meta name=\"viewport\" content=\"width=device-width, initial-scale=1\"><title>reclaim — history report</title>\n<style>"@),
        holds_own_tags_only("</style></head><body>"@),
        holds_own_tags_only("</body></html>"@),
{
    lemma_text_of_page();
    lemma_text_of_page_2();
    assert(holds_own_tags_only("</body></html>"@)) by {
        reveal_strlit("</body></html>");
        reveal(holds_own_tags_only);
        lemma_own_tags();
        let s = "</body></html>"@;
        reveal_strlit("</body>");
        reveal_strlit("</html>");
        lemma_tag_at(s, 0, 45);
        lemma_tag_at(s, 7, 46);
    }
}

proof fn lemma_style()
    ensures
        holds_own_tags_only(STYLE@),
{
    reveal_strlit(r#"
:root {
  --bg: #f6f7f9; --surface: #fff; --border: #dfe3e8; --text: #12161c; --dim: #5f6b7a;
  --safe: #2f9e5e; --review: #c98a12; --caution: #cf3f3f; --accent: #2f6fdb;
}
@media (prefers-color-scheme: dark) {
  :root { --bg: #14171c; --surface: #1c2027; --border: #2c323b; --text: #e6e9ee; --dim: #99a3b1;
    --safe: #4cc37e; --review: #e0a838; --caution: #f2645f; --accent: #6aa1ff; }
}
* { box-sizing: border-box; }
body { margin: 0; padding: 2rem; background: var(--bg); color: var(--text);
  font: 14px/1.5 -apple-system, BlinkMacSystemFont, "Segoe UI", sans-serif; }
header { margin-bottom: 1.5rem; }
h1 { margin: 0 0 0.2rem; font-size: 1.4rem; }
h2 { font-size: 1rem; margin: 0 0 0.6rem; }
.dim { color: var(--dim); }
.small { font-size: 0.8em; }
section { max-width: 900px; margin: 0 auto 1.8rem; background: var(--surface);
  border: 1px solid var(--border); border-radius: 10px; padding: 1rem 1.2rem; }
header { max-width: 900px; margin-left: auto; margin-right: auto; }
.stats { max-width: 900px; margin: 0 auto 1.8rem; display: grid;
  grid-template-columns: repeat(auto-fit, minmax(140px, 1fr)); gap: 0.75rem; background: none;
  border: none; padding: 0; }
.card { background: var(--surface); border: 1px solid var(--border); border-radius: 10px;
  padding: 0.8rem; text-align: center; }
.card-value { font-size: 1.3rem; font-weight: 700; }
.card.safe .card-value { color: var(--safe); }
.card.review .card-value { color: var(--review); }
.card.caution .card-value { color: var(--caution); }
.card-label { color: var(--dim); font-size: 0.78rem; margin-top: 0.15rem; }
table { width: 100%; border-collapse: collapse; font-size: 0.86rem; }
th, td { text-align: left; padding: 0.35rem 0.5rem; border-bottom: 1px solid var(--border); }
th { color: var(--dim); font-weight: 600; }
td.num { font-variant-numeric: tabular-nums; white-space: nowrap; }
tr.failure td { color: var(--caution); }
.scroll { overflow-x: auto; }
.pill { display: inline-block; padding: 0.05rem 0.45rem; border-radius: 999px;
  font-size: 0.75rem; border: 1px solid currentColor; color: var(--dim); }
.pill.safe { color: var(--safe); }
.pill.review { color: var(--review); }
.pill.caution { color: var(--caution); }
.chart { width: 100%; height: auto; }
.axis { stroke: var(--border); }
.chart-area { fill: color-mix(in srgb, var(--accent) 18%, transparent); stroke: none; }
.chart-line { fill: none; stroke: var(--accent); stroke-width: 2; }
.chart-dot { fill: var(--accent); }
.bars { display: flex; flex-direction: column; gap: 0.55rem; }
.bar-row { display: grid; grid-template-columns: 11rem 1fr 8rem; align-items: center; gap: 0.6rem; }
.bar-track { display: flex; height: 12px; background: var(--bg); border-radius: 6px; overflow: hidden; }
.bar-fill.freed { background: var(--safe); }
.bar-fill.trashed { background: var(--review); opacity: 0.7; }
.bar-value { text-align: right; font-variant-numeric: tabular-nums; white-space: nowrap; }
"#);
    lemma_plain(STYLE@);
}

proof fn lemma_header(report: HistoryReport, version: Seq<char>, now: Moment)
    ensures
        holds_own_tags_only(header_html(report, version, now)),
{
    broadcast use group_markup;

    lemma_texts_of_header();
}

proof fn lemma_card(label: Seq<char>, value: Seq<char>, accent: Seq<char>)
    requires
        holds_own_tags_only(accent),
    ensures
        holds_own_tags_only(card_html(label, value, accent)),
{
    broadcast use group_markup;

    lemma_texts_of_cards();
}

proof fn lemma_stats(report: HistoryReport)
    ensures
        holds_own_tags_only(stats_html(report)),
{
    broadcast use group_markup;

    lemma_texts_of_cards();
    lemma_card("Lifetime freed"@, bytes_spec(report.lifetime_freed as nat), "safe"@);
    lemma_card("In the Trash"@, bytes_spec(report.lifetime_trashed as nat), "review"@);
    lemma_card("Items found"@, in_threes(decimal(report.lifetime_candidates_found as nat)), ""@);
    lemma_card("Real runs"@, in_threes(decimal(report.real_runs as nat)), ""@);
    let failed = in_threes(decimal(report.failed_items as nat));
    lemma_card("Failed items"@, failed, "caution"@);
    lemma_card("Failed items"@, failed, ""@);
}

/// The coordinates of a chart hold no `<`.
pub open spec fn are_coordinates(plot: Seq<(Seq<char>, Seq<char>)>) -> bool {
    forall|i: int|
        0 <= i < plot.len() ==> !(#[trigger] plot[i]).0.contains('<') && !plot[i].1.contains('<')
}

proof fn lemma_coordinates(plot: Seq<(Seq<char>, Seq<char>)>, i: int)
    requires
        are_coordinates(plot),
        0 <= i < plot.len(),
    ensures
        holds_own_tags_only(plot[i].0),
        holds_own_tags_only(plot[i].1),
{
    let x = plot[i].0;
    let y = plot[i].1;
    assert forall|k: int| 0 <= k < x.len() implies #[trigger] x[k] != '<' by {
        assert(x.contains(x[k]));
    }
    assert forall|k: int| 0 <= k < y.len() implies #[trigger] y[k] != '<' by {
        assert(y.contains(y[k]));
    }
    lemma_plain(x);
    lemma_plain(y);
}

proof fn lemma_paths(plot: Seq<(Seq<char>, Seq<char>)>)
    requires
        are_coordinates(plot),
    ensures
        holds_own_tags_only(line_path(plot)),
        holds_own_tags_only(open_area(plot)),
    decreases plot.len(),
{
    broadcast use group_markup;

    if plot.len() > 0 {
        let before = plot.drop_last();
        assert forall|i: int| 0 <= i < before.len() implies !(#[trigger] before[i]).0.contains('<')
            && !before[i].1.contains('<') by {
            assert(before[i] == plot[i]);
        }
        lemma_paths(before);
        lemma_coordinates(plot, plot.len() - 1);
        lemma_texts_of_lines();
    }
}

proof fn lemma_dots(
    points: Seq<TimelinePoint>,
    plot: Seq<(Seq<char>, Seq<char>)>,
    now: Moment,
)
    requires
        are_coordinates(plot),
        points.len() <= plot.len(),
    ensures
        holds_own_tags_only(dots_html(points, plot, now)),
    decreases points.len(),
{
    broadcast use group_markup;

    if points.len() > 0 {
        lemma_dots(points.drop_last(), plot, now);
        lemma_coordinates(plot, points.len() - 1);
        lemma_texts_of_dots();
    }
}

proof fn lemma_timeline(
    points: Seq<TimelinePoint>,
    plot: Seq<(Seq<char>, Seq<char>)>,
    now: Moment,
)
    requires
        are_coordinates(plot),
        points.len() == plot.len(),
    ensures
        holds_own_tags_only(timeline_html(points, plot, now)),
{
    broadcast use group_markup;

    lemma_texts_of_timeline();
    if points.len() >= 2 {
        lemma_paths(plot);
        lemma_dots(points, plot, now);
        lemma_coordinates(plot, plot.len() - 1);
    }
}

proof fn lemma_bar(g: GroupStatsModel, longest: nat)
    ensures
        holds_own_tags_only(bar_html(g, longest)),
{
    broadcast use group_markup;

    lemma_texts_of_bars();
    lemma_percent(g.freed, longest);
    lemma_percent(g.trashed, longest);
    lemma_bytes(g.trashed);
}

proof fn lemma_bars(groups: Seq<GroupStatsModel>, longest: nat)
    ensures
        holds_own_tags_only(bars_html(groups, longest)),
    decreases groups.len(),
{
    broadcast use group_markup;

    if groups.len() > 0 {
        lemma_bars(groups.drop_last(), longest);
        lemma_bar(groups.last(), longest);
    }
}

proof fn lemma_by_group(groups: Seq<GroupStatsModel>)
    ensures
        holds_own_tags_only(by_group_html(groups)),
{
    broadcast use group_markup;

    lemma_texts_of_by_group();
    lemma_bars(groups, longest_bar(groups));
}

proof fn lemma_triggers(rows: Seq<TriggerStatsModel>)
    ensures
        holds_own_tags_only(trigger_rows(rows)),
    decreases rows.len(),
{
    broadcast use group_markup;

    if rows.len() > 0 {
        lemma_texts_of_trigger_rows();
        lemma_triggers(rows.drop_last());
    }
}

proof fn lemma_by_trigger(rows: Seq<TriggerStatsModel>)
    ensures
        holds_own_tags_only(by_trigger_html(rows)),
{
    broadcast use group_markup;

    lemma_texts_of_by_trigger();
    lemma_triggers(rows);
}

proof fn lemma_tier(tier: Tier)
    ensures
        holds_own_tags_only(tier.name()),
{
    reveal_strlit("safe");
    reveal_strlit("review");
    reveal_strlit("caution");
    lemma_plain(tier.name());
}

proof fn lemma_top_items(rows: Seq<TopItemModel>, now: Moment)
    ensures
        holds_own_tags_only(top_item_rows(rows, now)),
    decreases rows.len(),
{
    broadcast use group_markup;

    if rows.len() > 0 {
        lemma_texts_of_top_item_rows();
        lemma_tier(rows.last().tier);
        lemma_top_items(rows.drop_last(), now);
    }
}

proof fn lemma_top(rows: Seq<TopItemModel>, now: Moment)
    ensures
        holds_own_tags_only(top_items_html(rows, now)),
{
    broadcast use group_markup;

    lemma_texts_of_top_items();
    lemma_top_items(rows, now);
}

proof fn lemma_failure_rows(rows: Seq<FailureModel>, now: Moment)
    ensures
        holds_own_tags_only(failure_rows(rows, now)),
    decreases rows.len(),
{
    broadcast use group_markup;

    if rows.len() > 0 {
        lemma_texts_of_failure_rows();
        lemma_failure_rows(rows.drop_last(), now);
    }
}

proof fn lemma_failures(rows: Seq<FailureModel>, now: Moment)
    ensures
        holds_own_tags_only(failures_html(rows, now)),
{
    broadcast use group_markup;

    lemma_texts_of_failures();
    lemma_failure_rows(rows, now);
}

proof fn lemma_run_rows(rows: Seq<RunSummaryModel>, now: Moment)
    ensures
        holds_own_tags_only(run_rows(rows, now)),
    decreases rows.len(),
{
    broadcast use group_markup;

    if rows.len() > 0 {
        lemma_texts_of_run_rows();
        lemma_run_rows(rows.drop_last(), now);
        assert(holds_own_tags_only(status_html(rows.last())));
    }
}

proof fn lemma_runs(rows: Seq<RunSummaryModel>, now: Moment)
    ensures
        holds_own_tags_only(runs_html(rows, now)),
{
    broadcast use group_markup;

    lemma_texts_of_runs();
    lemma_run_rows(rows, now);
}

/// No tag of the page is one that starts with those letters.
proof fn lemma_letters(k: int)
    requires
        0 <= k < own_tags().len(),
    ensures
        ({
            let tag = own_tags()[k];
            &&& tag.len() >= 3
            &&& tag[1] != 'i'
            &&& tag[1] != 'o'
            &&& tag[1] != 'e'
            &&& tag[1] == 's' ==> tag[2] != 'c'
            &&& tag[1] == 'l' ==> tag.len() > 4 && tag[4] != 'k'
        }),
{
    lemma_own_tags();
    reveal_strlit("<header>");
    reveal_strlit("<h1>");
    reveal_strlit("</h1>");
    reveal_strlit("<p ");
    reveal_strlit("</p>");
    reveal_strlit("</header>");
    reveal_strlit("<div ");
    reveal_strlit("</div>");
    reveal_strlit("<section ");
    reveal_strlit("</section>");
    reveal_strlit("<circle ");
    reveal_strlit("<title>");
    reveal_strlit("</title>");
    reveal_strlit("</circle>");
    reveal_strlit("<section>");
    reveal_strlit("<h2>");
    reveal_strlit("</h2>");
    reveal_strlit("<svg ");
    reveal_strlit("<line ");
    reveal_strlit("<path ");
    reveal_strlit("</svg>");
    reveal_strlit("<span ");
    reveal_strlit("</span>");
    reveal_strlit("<tr>");
    reveal_strlit("<td>");
    reveal_strlit("</td>");
    reveal_strlit("<td ");
    reveal_strlit("</tr>");
    reveal_strlit("<table>");
    reveal_strlit("<thead>");
    reveal_strlit("<th>");
    reveal_strlit("</th>");
    reveal_strlit("</thead>");
    reveal_strlit("<tbody>");
    reveal_strlit("</tbody>");
    reveal_strlit("</table>");
    reveal_strlit("<tr ");
    reveal_strlit("<!doctype ");
    reveal_strlit("<html ");
    reveal_strlit("<head>");
    reveal_strlit("<meta ");
    reveal_strlit("<style>");
    reveal_strlit("</style>");
    reveal_strlit("</head>");
    reveal_strlit("<body>");
    reveal_strlit("</body>");
    reveal_strlit("</html>");
}

/// A tag whose name none of the page's own tags starts with stands nowhere.
proof fn lemma_foreign(s: Seq<char>, tag: Seq<char>)
    requires
        holds_own_tags_only(s),
        tag.len() >= 4,
        tag[0] == '<',
        tag[1] == 'i' || tag[1] == 'o' || tag[1] == 'e' || (tag[1] == 's' && tag[2] == 'c') || (
        tag.len() > 4 && tag[1] == 'l' && tag[4] == 'k'),
    ensures
        !has_part(s, tag),
{
    reveal(holds_own_tags_only);
    if has_part(s, tag) {
        let i = choose|i: int| 0 <= i <= s.len() - tag.len() && #[trigger] stands_at(s, i, tag);
        assert forall|j: int| 0 <= j < tag.len() implies s[i + j] == tag[j] by {
            assert(s.subrange(i, i + tag.len())[j] == s[i + j]);
        }
        assert(s[i + 0] == tag[0]);
        let k = choose|k: int|
            0 <= k < own_tags().len() && i + own_tags()[k].len() <= s.len() && stands_at(
                s,
                i,
                #[trigger] own_tags()[k],
            );
        let own = own_tags()[k];
        assert forall|j: int| 0 <= j < own.len() implies s[i + j] == own[j] by {
            assert(s.subrange(i, i + own.len())[j] == s[i + j]);
        }
        lemma_letters(k);
        assert(own[1] == s[i + 1] && own[2] == s[i + 2]);
        assert(tag[1] == s[i + 1] && tag[2] == s[i + 2]);
        if tag[1] == 'l' {
            assert(own[4] == s[i + 4] && tag[4] == s[i + 4]);
        }
    }
}

/// Whatever the history holds, every tag of the page is one of its own: nothing that comes from a
/// record opens a tag. So the page runs no script, and loads no style sheet, image or frame.
pub proof fn the_page_holds_its_own_tags_only(
    report: HistoryReport,
    version: Seq<char>,
    plot: Seq<(Seq<char>, Seq<char>)>,
    now: Moment,
)
    requires
        report.timeline@.len() == plot.len(),
        are_coordinates(plot),
    ensures
        holds_own_tags_only(page_html(report, version, plot, now)),
        !has_part(page_html(report, version, plot, now), "<script"@),
        !has_part(page_html(report, version, plot, now), "<link"@),
        !has_part(page_html(report, version, plot, now), "<img"@),
        !has_part(page_html(report, version, plot, now), "<iframe"@),
        !has_part(page_html(report, version, plot, now), "<object"@),
        !has_part(page_html(report, version, plot, now), "<embed"@),
{
    broadcast use group_markup;

    lemma_texts_of_page();
    lemma_style();
    lemma_header(report, version, now);
    lemma_stats(report);
    lemma_timeline(report.timeline@, plot, now);
    lemma_by_group(views(report.by_group@));
    lemma_by_trigger(views(report.by_trigger@));
    lemma_top(views(report.top_items@), now);
    lemma_failures(views(report.failures@), now);
    lemma_runs(views(report.runs_detail@), now);
    let page = page_html(report, version, plot, now);
    assert(holds_own_tags_only(page));
    reveal_strlit("<script");
    reveal_strlit("<link");
    reveal_strlit("<img");
    reveal_strlit("<iframe");
    reveal_strlit("<object");
    reveal_strlit("<embed");
    lemma_foreign(page, "<script"@);
    lemma_foreign(page, "<link"@);
    lemma_foreign(page, "<img"@);
    lemma_foreign(page, "<iframe"@);
    lemma_foreign(page, "<object"@);
    lemma_foreign(page, "<embed"@);
}

} // verus!
