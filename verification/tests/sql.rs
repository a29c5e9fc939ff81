use std::collections::HashMap;

use hgame_launcher::deserializer::{Cell, DeserializeError, Deserializer};
use hgame_launcher::error::Error;
use hgame_launcher::sql::{parse_sql_reponse, read_result_page, read_rows};

const HEADERS: [&str; 17] = [
    "id", "brandname", "brandfurigana", "makername", "makerfurigana", "checked", "url", "kind",
    "lost", "directlink", "median", "http_response_code", "twitter", "twitter_data_widget_id",
    "notes", "erogetrailers", "cien",
];

const ROW: [&str; 17] = [
    "1795", "ゆずソフト", "ゆずそふと", "ゆずソフト", "ゆずそふと", "", "http://www.yuzu-soft.com/",
    "CORPORATION", "f", "t", "80", "200", "yuzusoft_staff", "", "", "123", "",
];

fn page(title: &str, main: &str) -> String {
    format!(
        "<!DOCTYPE html><html><head><title>SQL</title></head><body>\
         <h3 id=\"query_result_header\">{title}</h3>\
         <div id=\"query_result_main\">{main}</div></body></html>"
    )
}

fn table(headers: &[&str], rows: &[Vec<&str>]) -> String {
    let mut t = String::from("<table><tr>");
    for h in headers {
        t.push_str(&format!("<th>{h}</th>"));
    }
    t.push_str("</tr>");
    for r in rows {
        t.push_str("<tr>");
        for c in r {
            t.push_str(&format!("<td>{c}</td>"));
        }
        t.push_str("</tr>");
    }
    t.push_str("</table>");
    t
}

#[derive(Debug)]
#[allow(dead_code)]
struct Success1 {
    id: i32,
    brandname: String,
    checked: Option<String>,
    kind: String,
    lost: bool,
    directlink: bool,
    median: i32,
    http_response_code: Option<i32>,
    notes: Option<String>,
}

fn read_success1(headers: &Vec<String>, row: &Vec<String>) -> Result<Success1, DeserializeError> {
    let mut d = Deserializer::new(headers, row);
    let mut r = Success1 {
        id: 0,
        brandname: String::new(),
        checked: None,
        kind: String::new(),
        lost: true,
        directlink: false,
        median: 0,
        http_response_code: None,
        notes: None,
    };
    while let Some(key) = d.next_key_seed() {
        match key.as_str() {
            "id" | "median" => match d.deserialize_any(false)? {
                Cell::I32(n) if key == "id" => r.id = n,
                Cell::I32(n) => r.median = n,
                other => return Err(DeserializeError::custom(format!("not a number: {other:?}"))),
            },
            "lost" | "directlink" => match d.deserialize_any(false)? {
                Cell::Bool(b) if key == "lost" => r.lost = b,
                Cell::Bool(b) => r.directlink = b,
                other => return Err(DeserializeError::custom(format!("not a bool: {other:?}"))),
            },
            "brandname" => r.brandname = d.deserialize_string()?,
            "kind" => r.kind = d.variant_seed()?.clone(),
            "checked" | "notes" => {
                let v = if d.deserialize_option() { Some(d.deserialize_string()?) } else { None };
                if key == "checked" { r.checked = v } else { r.notes = v }
            }
            "http_response_code" => {
                r.http_response_code = if d.deserialize_option() {
                    match d.deserialize_any(false)? {
                        Cell::I32(n) => Some(n),
                        other => return Err(DeserializeError::custom(format!("not a number: {other:?}"))),
                    }
                } else {
                    None
                }
            }
            _ => {}
        }
        d.next_value_seed();
    }
    Ok(r)
}

#[test]
fn sql_parse_1() {
    let html = page("\n 結果 \n", &table(&HEADERS, &[ROW.to_vec()]));
    let t = parse_sql_reponse(&html).unwrap();
    assert_eq!(t.headers, HEADERS.to_vec());
    assert_eq!(t.rows.len(), 1);
    assert_eq!(t.rows[0], ROW.to_vec());
    assert!(t.trailing_error.is_none());
    let data = read_rows(t, read_success1).unwrap();
    assert_eq!(data.len(), 1);
    let g = &data[0];
    assert_eq!(g.id, 1795);
    assert_eq!(g.brandname, "ゆずソフト");
    assert_eq!(g.checked, None);
    assert_eq!(g.kind, "CORPORATION");
    assert!(!g.lost);
    assert!(g.directlink);
    assert_eq!(g.median, 80);
    assert_eq!(g.http_response_code, Some(200));
    assert_eq!(g.notes, None);
}

#[test]
fn sql_parse_hashmap() {
    let html = page("結果", &table(&HEADERS, &[ROW.to_vec(), ROW.to_vec()]));
    let t = parse_sql_reponse(&html).unwrap();
    let maps: Vec<HashMap<String, String>> = read_rows(t, |h: &Vec<String>, r: &Vec<String>| {
        Deserializer::new(h, r).deserialize_string_map().map(|pairs| pairs.into_iter().collect())
    })
    .unwrap();
    assert_eq!(maps.len(), 2);
    assert_eq!(maps[0].len(), HEADERS.len());
    assert_eq!(maps[0]["brandname"], "ゆずソフト");
    assert_eq!(maps[1]["kind"], "CORPORATION");
    assert_eq!(maps[1]["checked"], "");
}

#[test]
fn rows_are_read_before_the_malformed_row_is_reported() {
    let rows = vec![vec!["1", "x"], vec!["oops", "y"], vec!["3"]];
    let html = page("結果", &table(&["id", "name"], &rows));
    let t = parse_sql_reponse(&html).unwrap();
    let first = read_rows(t, |h: &Vec<String>, r: &Vec<String>| {
        match Deserializer::new(h, r).deserialize_any(false)? {
            Cell::I32(n) => Ok(n),
            _ => Err(DeserializeError::custom("id".to_string())),
        }
    });
    assert!(matches!(first, Err(Error::SqlDeserialize(DeserializeError::Message(m))) if m == "id"));
    let t = parse_sql_reponse(&html).unwrap();
    let all = read_rows(t, |_h: &Vec<String>, r: &Vec<String>| Ok::<usize, DeserializeError>(r.len()));
    assert!(matches!(all, Err(Error::HtmlParse(_))));
}

#[test]
fn result_page_reads_from_the_selected_nodes() {
    let s = |v: &[&str]| v.iter().map(|x| x.to_string()).collect::<Vec<String>>();
    let titles = Some(vec![s(&["  エラー(SQL間違い)  "])]);
    let mains = Some(vec![s(&["ERROR: ", "bad"])]);
    match read_result_page(titles, mains, Some(vec![]), Some(vec![])) {
        Err(e) => assert_eq!(e.message(), "Failed to execute sql on erogamescape: ERROR: bad"),
        other => panic!("unexpected {other:?}"),
    }
    let ths = Some(vec![vec![s(&["i", "d"]), s(&["name"])], vec![]]);
    let tds = Some(vec![vec![], vec![s(&["1"]), s(&["a", "b"])]]);
    let t = read_result_page(Some(vec![s(&["結果"])]), None, ths, tds).unwrap();
    assert_eq!(t.headers, vec!["id", "name"]);
    assert_eq!(t.rows, vec![vec!["1".to_string(), "ab".to_string()]]);
    let e = read_result_page(None, None, None, None).unwrap_err();
    assert_eq!(e.message(), "Failed to parse html: Invalid selector");
}

#[test]
fn sql_parse_execute_error() {
    let message = "ERROR:  relation \"aiueo\" does not exist\nLINE 1: EXPLAIN SELECT * FROM aiueo WHERE url=1\n                              ^";
    let html = page("\n  エラー(SQL間違い)\n", message);
    let error = parse_sql_reponse(&html).unwrap_err();
    if let Error::SqlExecute(m) = &error {
        assert_eq!(
            *m,
            r#"ERROR:  relation "aiueo" does not exist
LINE 1: EXPLAIN SELECT * FROM aiueo WHERE url=1
                              ^"#
                .to_string()
        );
    } else {
        panic!("error is not SqlExecute");
    }
}

#[test]
fn error_message_joins_its_text_nodes() {
    let html = page("エラー(SQL間違い)", "syntax <b>error</b> near x");
    match parse_sql_reponse(&html) {
        Err(Error::SqlExecute(m)) => assert_eq!(m, "syntax error near x"),
        other => panic!("unexpected {other:?}"),
    }
}

#[test]
fn page_without_title_is_refused() {
    let html = "<html><body><div id=\"query_result_main\"></div></body></html>";
    assert!(matches!(parse_sql_reponse(html), Err(Error::HtmlParse(m)) if m == "No result title"));
    let html = "<html><body><h3 id=\"query_result_header\"></h3></body></html>";
    assert!(matches!(parse_sql_reponse(html), Err(Error::HtmlParse(m)) if m == "No result title"));
}

#[test]
fn error_title_without_message_is_refused() {
    let html = "<html><body><h3 id=\"query_result_header\">エラー(SQL間違い)</h3></body></html>";
    assert!(matches!(parse_sql_reponse(html), Err(Error::HtmlParse(m)) if m == "No error message"));
}

#[test]
fn page_without_rows_gives_empty_table() {
    let html = page("結果", "");
    let t = parse_sql_reponse(&html).unwrap();
    assert!(t.headers.is_empty());
    assert!(t.rows.is_empty());
    assert!(t.trailing_error.is_none());
}

#[test]
fn headers_only_give_no_rows() {
    let html = page("結果", &table(&["a", "b"], &[]));
    let t = parse_sql_reponse(&html).unwrap();
    assert_eq!(t.headers, vec!["a", "b"]);
    assert!(t.rows.is_empty());
}

#[test]
fn rows_stop_at_the_first_of_another_width() {
    let rows = vec![vec!["1", "x"], vec!["2"], vec!["3", "z"]];
    let html = page("結果", &table(&["id", "name"], &rows));
    let t = parse_sql_reponse(&html).unwrap();
    assert_eq!(t.rows, vec![vec!["1".to_string(), "x".to_string()]]);
    assert!(matches!(
        t.trailing_error,
        Some(Error::HtmlParse(m)) if m == "The number of columns is different from the number of headers."
    ));
}
