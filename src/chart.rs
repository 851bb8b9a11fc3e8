//! What a chart will look like, decided before any drawing: its style,
//! caption, category labels and tick count.

use vstd::prelude::*;
use crate::api::ChartData;
use crate::text::{chars_of, decimal, lower_of, lowercase, push_decimal, push_text, same_text, string_of};

verus! {

/// How the series is drawn.
#[derive(Clone, Copy, Debug, PartialEq, Eq, Structural)]
pub enum ChartStyle {
    /// A connected line with a marker at each point.
    Line,
    /// One bar per category, each in its own palette colour (no radial
    /// drawing).
    Pie,
    /// One bar per category.
    Bar,
}

/// The style for a chart kind already in lower case.
pub open spec fn style_of(kind: Seq<char>) -> ChartStyle {
    if kind == "line"@ || kind == "trend"@ {
        ChartStyle::Line
    } else if kind == "pie"@ {
        ChartStyle::Pie
    } else {
        ChartStyle::Bar
    }
}

/// The style for a chart kind, given its lower-case form.
pub fn chart_style_folded(kind_lower: &str) -> (r: ChartStyle)
    ensures
        r == style_of(kind_lower@),
{
    if same_text(kind_lower, "line") || same_text(kind_lower, "trend") {
        ChartStyle::Line
    } else if same_text(kind_lower, "pie") {
        ChartStyle::Pie
    } else {
        ChartStyle::Bar
    }
}

/// The style for a chart kind, matched without regard to case.
pub fn chart_style(kind: &str) -> (r: ChartStyle)
    ensures
        r == style_of(lower_of(kind@)),
{
    let lowered = lowercase(kind);
    chart_style_folded(lowered.as_str())
}

/// A category label on the x axis: cut to 8 characters and `..` when it is
/// longer than 10.
pub open spec fn axis_label(l: Seq<char>) -> Seq<char> {
    if l.len() > 10 {
        l.take(8) + ".."@
    } else {
        l
    }
}

/// The text under the x position `x`: its category's label, or the number
/// itself where there is no category.
pub open spec fn x_tick_text(labels: Seq<String>, x: int) -> Seq<char> {
    if 0 <= x < labels.len() {
        axis_label(labels[x]@)
    } else if x >= 0 {
        decimal(x as nat)
    } else {
        seq!['-'] + decimal((-x) as nat)
    }
}

pub fn x_tick_label(labels: &Vec<String>, x: i64) -> (r: String)
    ensures
        r@ == x_tick_text(labels@, x as int),
{
    if x >= 0 && (x as u64) < (labels.len() as u64) {
        let cs = chars_of(labels[x as usize].as_str());
        if cs.len() > 10 {
            let mut head: Vec<char> = Vec::new();
            let mut i: usize = 0;
            while i < 8
                invariant
                    i <= 8 < cs@.len(),
                    head@ == cs@.take(i as int),
                decreases 8 - i,
            {
                head.push(cs[i]);
                assert(cs@.take(i + 1) == cs@.take(i as int).push(cs@[i as int]));
                i = i + 1;
            }
            let mut r = string_of(&head);
            push_text(&mut r, "..");
            r
        } else {
            string_of(&cs)
        }
    } else {
        let mut r = String::new();
        if x >= 0 {
            push_decimal(&mut r, x as u64);
        } else {
            r.push('-');
            let m: u64 = if x == i64::MIN {
                9223372036854775808u64
            } else {
                (-x) as u64
            };
            push_decimal(&mut r, m);
        }
        r
    }
}

/// The most category ticks drawn on the x axis.
pub const MAX_X_TICKS: usize = 20;

/// The caption when a chart has no title.
pub const DEFAULT_CAPTION: &'static str = "Данные";

/// What the rasterizer is asked to draw.
#[derive(Clone, Debug)]
pub struct ChartPlan {
    pub style: ChartStyle,
    pub caption: String,
    pub categories: usize,
    pub x_ticks: usize,
}

/// The plan for a chart; none when it has no categories, so that nothing is
/// drawn.
pub fn plan_chart(chart: &ChartData) -> (r: Option<ChartPlan>)
    ensures
        r is None <==> chart.labels@.len() == 0,
        r matches Some(p) ==> {
            &&& p.style == style_of(lower_of(chart.chart_type@))
            &&& p.caption@ == match chart.title {
                Some(t) => t@,
                None => DEFAULT_CAPTION@,
            }
            &&& p.categories == chart.labels@.len()
            &&& p.x_ticks == if chart.labels@.len() < MAX_X_TICKS {
                chart.labels@.len()
            } else {
                MAX_X_TICKS as nat
            }
        },
{
    let n = chart.labels.len();
    if n == 0 {
        return None;
    }
    let caption = match &chart.title {
        Some(t) => String::from_str(t.as_str()),
        None => String::from_str(DEFAULT_CAPTION),
    };
    Some(
        ChartPlan {
            style: chart_style(chart.chart_type.as_str()),
            caption,
            categories: n,
            x_ticks: if n < MAX_X_TICKS {
                n
            } else {
                MAX_X_TICKS
            },
        },
    )
}

} // verus!
