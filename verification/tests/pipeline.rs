use snl_parser::article::SnlArticle;
use snl_parser::clean::{clean_articles, clean_html};
use snl_parser::config::{parse_count, Config};
use snl_parser::extract::get_urls;
use snl_parser::fetch::{collect_articles, request_targets, run_results, FetchOutcome};
use snl_parser::json::articles_to_json;

fn article(id: usize, url: &str, title: &str, subject: &str, body: &str) -> SnlArticle {
    SnlArticle {
        id,
        url: url.to_string(),
        title: title.to_string(),
        subject_title: subject.to_string(),
        xhtml_body: body.to_string(),
    }
}

#[test]
fn extraction_example() {
    let urls = get_urls("see https://snl.no/Oslo and https://snl.no/Bergen_2 here");
    assert_eq!(urls, vec!["https://snl.no/Oslo".to_string(), "https://snl.no/Bergen_2".to_string()]);
}

#[test]
fn extraction_deterministic() {
    let text = "<loc>https://snl.no/Oslo</loc> x https://snl.no/Oslo https://snl.no/a_9";
    let first = get_urls(text);
    let second = get_urls(text);
    assert_eq!(first, second);
    assert_eq!(first.len(), 3);
}

#[test]
fn extraction_keeps_duplicates_in_order() {
    let urls = get_urls("https://snl.no/A https://snl.no/B https://snl.no/A");
    assert_eq!(
        urls,
        vec![
            "https://snl.no/A".to_string(),
            "https://snl.no/B".to_string(),
            "https://snl.no/A".to_string(),
        ]
    );
}

#[test]
fn extraction_ignores_lookalikes() {
    assert_eq!(get_urls("http://snl.no/Oslo https://snl.nox/Oslo https://snl.no/"), Vec::<String>::new());
    assert_eq!(get_urls("https://snl.no/a."), vec!["https://snl.no/a".to_string()]);
    assert_eq!(get_urls(""), Vec::<String>::new());
}

#[test]
fn cleaner_example() {
    assert_eq!(clean_html("<p>Hello <b>World</b>!</p>"), "Hello World!");
}

#[test]
fn cleaner_idempotent_examples() {
    for input in [
        "<p>Hello <b>World</b>!</p>",
        "no tags at all",
        "a < b and c > d",
        "<i>A</i>",
        "",
    ] {
        let once = clean_html(input);
        let twice = clean_html(&once);
        assert_eq!(twice, once);
    }
}

#[test]
fn cleaner_edges() {
    assert_eq!(clean_html(""), "");
    assert_eq!(clean_html("a < b and c"), "a < b and c");
    assert_eq!(clean_html("<>"), "<>");
    assert_eq!(clean_html("<<b>>"), "<>");
    assert_eq!(clean_html("&amp; stays"), "&amp; stays");
    assert_eq!(clean_html("<br/>"), "");
    assert_eq!(clean_html("<a<b>c>"), "<ac>");
}

#[test]
fn clean_articles_touches_only_bodies() {
    let articles = vec![
        article(1, "https://snl.no/A", "A", "s1", "<i>A</i>"),
        article(2, "https://snl.no/B", "B", "s2", "plain"),
    ];
    let cleaned = clean_articles(articles);
    assert_eq!(cleaned.len(), 2);
    assert_eq!(cleaned[0].id, 1);
    assert_eq!(cleaned[0].url, "https://snl.no/A");
    assert_eq!(cleaned[0].title, "A");
    assert_eq!(cleaned[0].subject_title, "s1");
    assert_eq!(cleaned[0].xhtml_body, "A");
    assert_eq!(cleaned[1].xhtml_body, "plain");
}

#[test]
fn fetch_bounded_by_count() {
    let urls = vec![
        "https://snl.no/A".to_string(),
        "https://snl.no/B".to_string(),
        "https://snl.no/C".to_string(),
        "https://snl.no/D".to_string(),
        "https://snl.no/E".to_string(),
    ];
    assert_eq!(request_targets(&urls, 3).len(), 3);
    assert_eq!(request_targets(&urls, 0).len(), 0);
    assert_eq!(request_targets(&urls, 9).len(), 5);
    let targets = request_targets(&urls, 2);
    assert_eq!(
        targets,
        vec!["https://snl.no/A.json".to_string(), "https://snl.no/B.json".to_string()]
    );
}

#[test]
fn failure_is_isolated() {
    let a = article(1, "https://snl.no/A", "A", "s", "a");
    let b = article(2, "https://snl.no/B", "B", "s", "b");
    let outcomes = vec![
        FetchOutcome::Fetched(a),
        FetchOutcome::TransportFailed,
        FetchOutcome::Fetched(b),
        FetchOutcome::DecodeFailed,
    ];
    let kept = collect_articles(outcomes);
    assert_eq!(kept.len(), 2);
    assert_eq!(kept[0].id, 1);
    assert_eq!(kept[1].id, 2);
}

#[test]
fn round_trip_two_of_three() {
    let sitemap = "<urlset><loc>https://snl.no/One</loc><loc>https://snl.no/Two</loc>\
                   <loc>https://snl.no/Three</loc></urlset>";
    let urls = get_urls(sitemap);
    assert_eq!(urls.len(), 3);
    let targets = request_targets(&urls, 2);
    assert_eq!(
        targets,
        vec!["https://snl.no/One.json".to_string(), "https://snl.no/Two.json".to_string()]
    );
    let outcomes = vec![
        FetchOutcome::Fetched(article(1, "https://snl.no/One", "One", "s", "<i>A</i>")),
        FetchOutcome::Fetched(article(2, "https://snl.no/Two", "Two", "s", "<i>B</i>")),
    ];
    let results = run_results(outcomes);
    assert_eq!(results.len(), 2);
    assert_eq!(results[0].xhtml_body, "A");
    assert_eq!(results[1].xhtml_body, "B");
    assert_eq!(results[0].title, "One");
    assert_eq!(results[1].title, "Two");
    let json = articles_to_json(&results);
    assert_eq!(
        json,
        r#"[{"id":1,"url":"https://snl.no/One","title":"One","subject_title":"s","xhtml_body":"A"},{"id":2,"url":"https://snl.no/Two","title":"Two","subject_title":"s","xhtml_body":"B"}]"#
    );
}

#[test]
fn json_matches_wire_format() {
    let articles = vec![article(7, "https://snl.no/X", "X", "sub", "body")];
    let wire: Vec<serde_json::Value> = articles
        .iter()
        .map(|a| {
            let mut m = serde_json::Map::new();
            m.insert("id".to_string(), serde_json::Value::from(a.id as u64));
            m.insert("url".to_string(), serde_json::Value::from(a.url.clone()));
            m.insert("title".to_string(), serde_json::Value::from(a.title.clone()));
            m.insert("subject_title".to_string(), serde_json::Value::from(a.subject_title.clone()));
            m.insert("xhtml_body".to_string(), serde_json::Value::from(a.xhtml_body.clone()));
            serde_json::Value::Object(m)
        })
        .collect();
    let produced = articles_to_json(&articles);
    let reparsed: serde_json::Value = serde_json::from_str(&produced).unwrap();
    assert_eq!(reparsed, serde_json::Value::Array(wire));
}

#[test]
fn json_escapes_strings() {
    let articles = vec![article(0, "", "a\"b", "back\\slash", "line\nbreak\tand\u{1}ctl")];
    assert_eq!(
        articles_to_json(&articles),
        r#"[{"id":0,"url":"","title":"a\"b","subject_title":"back\\slash","xhtml_body":"line\nbreak\tand\u0001ctl"}]"#
    );
}

#[test]
fn json_empty_array() {
    assert_eq!(articles_to_json(&Vec::new()), "[]");
}

#[test]
fn json_large_id() {
    let articles = vec![article(1234567890, "https://snl.no/Y", "Y", "s", "b")];
    let json = articles_to_json(&articles);
    assert!(json.contains(r#""id":1234567890"#));
}

#[test]
fn empty_sitemap_yields_empty_run() {
    let urls = get_urls("<urlset>nothing matching here</urlset>");
    assert_eq!(urls, Vec::<String>::new());
    let targets = request_targets(&urls, 10);
    assert_eq!(targets.len(), 0);
    let results = run_results(Vec::new());
    assert_eq!(results.len(), 0);
}

#[test]
fn parse_count_accepts_numbers() {
    assert_eq!(parse_count("10"), Some(10));
    assert_eq!(parse_count("0"), Some(0));
    assert_eq!(parse_count("+7"), Some(7));
    assert_eq!(parse_count("007"), Some(7));
}

#[test]
fn parse_count_rejects_non_numbers() {
    assert_eq!(parse_count(""), None);
    assert_eq!(parse_count("+"), None);
    assert_eq!(parse_count("abc"), None);
    assert_eq!(parse_count("1x"), None);
    assert_eq!(parse_count("-1"), None);
    assert_eq!(parse_count("99999999999999999999999999999"), None);
}

#[test]
fn config_from_args() {
    let args = vec![
        "snl_parser".to_string(),
        "sitemap.xml".to_string(),
        "out.json".to_string(),
        "10".to_string(),
    ];
    let config = Config::new(&args);
    assert_eq!(config.sitemap, "sitemap.xml");
    assert_eq!(config.output_path, "out.json");
    assert_eq!(config.n, 10);
}
