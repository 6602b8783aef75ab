use anime_season::scrape::{make_date, make_ogladajanime_url, make_slug};
use anime_season::text::{chars_to_string, contains_substr, str_to_chars, trim_chars};

#[test]
fn date_without_day_gets_placeholder() {
    assert_eq!(make_date("10.2025"), "??.10.2025");
}

#[test]
fn full_date_is_kept() {
    assert_eq!(make_date("04.10.2025"), "04.10.2025");
}

#[test]
fn date_with_no_dots_gets_placeholder() {
    assert_eq!(make_date("2025"), "??.2025");
    assert_eq!(make_date(""), "??.");
}

#[test]
fn date_with_many_dots_is_kept() {
    assert_eq!(make_date("1.2.3.4"), "1.2.3.4");
}

#[test]
fn slug_replaces_slash_and_space() {
    assert_eq!(make_slug("Fate/strange Fake"), "fate-strange-fake");
}

#[test]
fn slug_drops_brackets() {
    assert_eq!(make_slug("[Oshi no Ko] 3rd Season"), "oshi-no-ko-3rd-season");
}

#[test]
fn slug_drops_punctuation_blacklist() {
    assert_eq!(
        make_slug("Cardfight!! Vanguard: Divinez Genma Seisen-hen"),
        "cardfight-vanguard-divinez-genma-seisen-hen"
    );
}

#[test]
fn slug_drops_non_ascii_and_strips_one_trailing_dot() {
    assert_eq!(make_slug("Fruits Basket 1st Season\u{3042}."), "fruits-basket-1st-season");
    assert_eq!(make_slug("abc.."), "abc.");
}

#[test]
fn slug_is_idempotent_on_ordinary_titles() {
    for title in [
        "Fate/strange Fake",
        "[Oshi no Ko] 3rd Season",
        "Cardfight!! Vanguard: Divinez Genma Seisen-hen",
        "Boku no Hero Academia: Final Season",
    ] {
        let once = make_slug(title);
        assert_eq!(make_slug(&once), once);
    }
}

#[test]
fn candidate_url_is_prefix_plus_slug() {
    assert_eq!(
        make_ogladajanime_url("Jujutsu Kaisen 3rd Season"),
        "https://ogladajanime.pl/search/name/jujutsu-kaisen-3rd-season"
    );
}

#[test]
fn trim_strips_both_ends_only() {
    let v = str_to_chars("  a b\t\n");
    assert_eq!(chars_to_string(&trim_chars(&v)), "a b");
    let v = str_to_chars("");
    assert_eq!(chars_to_string(&trim_chars(&v)), "");
    let v = str_to_chars(" \t ");
    assert_eq!(chars_to_string(&trim_chars(&v)), "");
}

#[test]
fn trim_strips_unicode_whitespace() {
    let v = str_to_chars("\u{a0}\u{3000}a b\u{2009}\u{85}");
    assert_eq!(chars_to_string(&trim_chars(&v)), "a b");
    assert_eq!("\u{a0}\u{3000}a b\u{2009}\u{85}".trim(), "a b");
}

#[test]
fn substring_search_finds_markers() {
    let h = str_to_chars("https://shinden.pl/genre/12-action");
    assert!(contains_substr(&h, &str_to_chars("/genre/")));
    assert!(!contains_substr(&h, &str_to_chars("/targetgroup/")));
    assert!(contains_substr(&h, &str_to_chars("")));
}
