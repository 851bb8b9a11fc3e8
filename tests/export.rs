use analytics_bot::api::{Field, Row, Scalar};
use analytics_bot::export::{format_as_csv, format_data_as_table};

fn field(k: &str, v: Scalar) -> Field {
    Field { key: k.to_string(), value: v }
}

#[test]
fn rows_become_csv_lines() {
    let rows = vec![
        Row::Object(vec![
            field("city", Scalar::Text("Almaty".to_string())),
            field("total", Scalar::Number("12.5".to_string())),
        ]),
        Row::Object(vec![
            field("total", Scalar::Number("3".to_string())),
            field("city", Scalar::Text("say \"hi\"".to_string())),
        ]),
        Row::Other,
        Row::Object(vec![field("city", Scalar::Other)]),
    ];
    assert_eq!(
        format_as_csv(&rows),
        "city,total\n\"Almaty\",12.5\n\"say \"\"hi\"\"\",3\n,\n"
    );
}

#[test]
fn no_rows_no_text() {
    assert_eq!(format_as_csv(&Vec::new()), "");
    assert_eq!(format_as_csv(&vec![Row::Other]), "");
}

#[test]
fn rows_become_a_text_table() {
    let rows = vec![
        Row::Object(vec![
            field("city", Scalar::Text("Almaty".to_string())),
            field("total", Scalar::Number("12.50".to_string())),
        ]),
        Row::Object(vec![
            field("total", Scalar::Number("3.00".to_string())),
            field("city", Scalar::Text("Очень длинное название города".to_string())),
        ]),
        Row::Other,
        Row::Object(vec![field("city", Scalar::Other)]),
    ];
    let expected = format!(
        "```\n{:20} | {:20} | \n{}\n{:20} | {:20} | \n{:20} | {:20} | \n{:20} | {:20} | \n```\n",
        "city",
        "total",
        "-".repeat(46),
        "Almaty",
        "12.50",
        "Очень длинное н…",
        "3.00",
        "N/A",
        "N/A"
    );
    assert_eq!(format_data_as_table(&rows), expected);
    assert_eq!(format_data_as_table(&Vec::new()), "");
}
