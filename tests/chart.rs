use analytics_bot::api::ChartData;
use analytics_bot::chart::{chart_style, plan_chart, x_tick_label, ChartStyle};

fn chart(kind: &str, n: usize, title: Option<&str>) -> ChartData {
    ChartData {
        chart_type: kind.to_string(),
        labels: (0..n).map(|i| format!("c{}", i)).collect(),
        title: title.map(|t| t.to_string()),
    }
}

#[test]
fn no_labels_no_chart() {
    assert!(plan_chart(&chart("bar", 0, None)).is_none());
}

#[test]
fn plan_follows_the_description() {
    let p = plan_chart(&chart("LINE", 3, Some("Sales"))).unwrap();
    assert_eq!(p.style, ChartStyle::Line);
    assert_eq!(p.caption, "Sales");
    assert_eq!(p.categories, 3);
    assert_eq!(p.x_ticks, 3);
    let p = plan_chart(&chart("pie", 25, None)).unwrap();
    assert_eq!(p.style, ChartStyle::Pie);
    assert_eq!(p.caption, "Данные");
    assert_eq!(p.x_ticks, 20);
}

#[test]
fn kinds_are_matched_without_case() {
    assert_eq!(chart_style("Trend"), ChartStyle::Line);
    assert_eq!(chart_style("PIE"), ChartStyle::Pie);
    assert_eq!(chart_style("bar"), ChartStyle::Bar);
    assert_eq!(chart_style("scatter"), ChartStyle::Bar);
}

#[test]
fn long_labels_are_cut() {
    let labels = vec!["abcdefghijkl".to_string(), "короткая".to_string()];
    assert_eq!(x_tick_label(&labels, 0), "abcdefgh..");
    assert_eq!(x_tick_label(&labels, 1), "короткая");
    assert_eq!(x_tick_label(&labels, 25), "25");
    assert_eq!(x_tick_label(&labels, -1), "-1");
}
