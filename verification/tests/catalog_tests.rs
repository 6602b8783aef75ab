use anime_season::anime::{render_catalog, sort_catalog, Anime};

fn entry(date: &str, title: &str) -> Anime {
    Anime {
        title: title.to_string(),
        anime_type: "TV".to_string(),
        status: "Emitowane".to_string(),
        emmision_date: date.to_string(),
        genres: "Fantasy ".to_string(),
        target_groups: "Shounen ".to_string(),
        shinden_url: "https://shinden.pl/series/1-x".to_string(),
        ogladajanime_url: String::new(),
    }
}

#[test]
fn csv_line_quotes_and_separates_fields() {
    let a = Anime {
        title: "Title".to_string(),
        anime_type: "TV".to_string(),
        status: "Emitowane".to_string(),
        emmision_date: "04.10.2025".to_string(),
        genres: "Fantasy ".to_string(),
        target_groups: "Shounen ".to_string(),
        shinden_url: "https://shinden.pl/series/1-x".to_string(),
        ogladajanime_url: "https://ogladajanime.pl/search/name/title".to_string(),
    };
    assert_eq!(
        a.to_csv(),
        "\"Emitowane\", \"TV\", \"04.10.2025\", \"Shounen \", \"Fantasy \", \"Title\", \"https://ogladajanime.pl/search/name/title\", \"https://shinden.pl/series/1-x\""
    );
}

#[test]
fn describe_lists_the_fields() {
    let a = entry("04.10.2025", "Title");
    assert_eq!(
        a.describe(),
        "Title\n- Status: Emitowane\n- Typ: TV\n- Grupa docelowa: Shounen \n- Gatunek: Fantasy \n- Data emisji: 04.10.2025\n- Shinden: https://shinden.pl/series/1-x"
    );
}

#[test]
fn with_companion_fills_only_the_companion_url() {
    let a = entry("04.10.2025", "Title");
    let b = a.with_companion("https://ogladajanime.pl/search/name/title".to_string());
    assert_eq!(b.title, "Title");
    assert_eq!(b.emmision_date, "04.10.2025");
    assert_eq!(b.ogladajanime_url, "https://ogladajanime.pl/search/name/title");
}

#[test]
fn equal_dates_order_by_title() {
    let sorted = sort_catalog(vec![entry("01.01.2025", "B"), entry("01.01.2025", "A")]);
    assert_eq!(sorted[0].title, "A");
    assert_eq!(sorted[1].title, "B");
}

#[test]
fn placeholder_day_sorts_per_plain_string_comparison() {
    // Textual, not calendar, order: '0'..'9' precede '?' in code-point order,
    // so a fully specified day sorts before the `??.` placeholder.
    let sorted = sort_catalog(vec![entry("??.01.2025", "A"), entry("01.01.2025", "B")]);
    assert_eq!(sorted[0].emmision_date, "01.01.2025");
    assert_eq!(sorted[1].emmision_date, "??.01.2025");
}

#[test]
fn sort_orders_by_date_then_title() {
    let sorted = sort_catalog(vec![
        entry("05.01.2025", "C"),
        entry("01.01.2025", "B"),
        entry("01.01.2025", "A"),
        entry("??.10.2025", "D"),
    ]);
    let keys: Vec<(String, String)> = sorted
        .into_iter()
        .map(|a| (a.emmision_date, a.title))
        .collect();
    assert_eq!(
        keys,
        vec![
            ("01.01.2025".to_string(), "A".to_string()),
            ("01.01.2025".to_string(), "B".to_string()),
            ("05.01.2025".to_string(), "C".to_string()),
            ("??.10.2025".to_string(), "D".to_string()),
        ]
    );
}

#[test]
fn sort_keeps_input_order_of_fully_tied_entries() {
    let mut first = entry("01.01.2025", "Same");
    first.shinden_url = "https://shinden.pl/series/1-first".to_string();
    let mut second = entry("01.01.2025", "Same");
    second.shinden_url = "https://shinden.pl/series/2-second".to_string();
    let sorted = sort_catalog(vec![first, second]);
    assert_eq!(sorted[0].shinden_url, "https://shinden.pl/series/1-first");
    assert_eq!(sorted[1].shinden_url, "https://shinden.pl/series/2-second");
}

#[test]
fn sort_of_empty_catalog_is_empty() {
    let sorted = sort_catalog(Vec::new());
    assert!(sorted.is_empty());
}

#[test]
fn rendered_catalog_has_header_and_one_line_per_entry() {
    let rendered = render_catalog(&vec![entry("01.01.2025", "A"), entry("02.01.2025", "B")]);
    let lines: Vec<&str> = rendered.lines().collect();
    assert_eq!(lines.len(), 3);
    assert_eq!(
        lines[0],
        "Status, Typ, Data emisji, Grupa docelowa, Gatunek, Tytu\u{142}, Link do Ogladajanime, Link do Shinden"
    );
    assert!(lines[1].starts_with("\"Emitowane\", \"TV\", \"01.01.2025\""));
    assert!(lines[2].starts_with("\"Emitowane\", \"TV\", \"02.01.2025\""));
    assert!(rendered.ends_with('\n'));
}

#[test]
fn rendered_empty_catalog_is_only_the_header() {
    let rendered = render_catalog(&Vec::new());
    assert_eq!(
        rendered,
        "Status, Typ, Data emisji, Grupa docelowa, Gatunek, Tytu\u{142}, Link do Ogladajanime, Link do Shinden\n"
    );
}
