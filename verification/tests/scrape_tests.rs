use anime_season::anime::{render_catalog, sort_catalog, Anime};
use anime_season::scrape::{
    absolute_listing_urls, confirm_cross_reference, extract_details, make_ogladajanime_url,
    resolve_listing, scrape_anime_details, ScrapeError,
};

fn detail_page(title: &str, dds: &[&str], tags: &[(&str, &str)]) -> String {
    let mut page = String::from("<html><body>");
    if !title.is_empty() {
        page.push_str(&format!(
            "<h1 class=\"page-title\"><span class=\"title\">{}</span></h1>",
            title
        ));
    }
    page.push_str("<dl class=\"info-aside-list\">");
    for dd in dds {
        page.push_str(&format!("<dd>{}</dd>", dd));
    }
    page.push_str("</dl><ul class=\"tags\">");
    for (href, text) in tags {
        page.push_str(&format!(
            "<li><a class=\"button-with-tip\" href=\"{}\">{}</a></li>",
            href, text
        ));
    }
    page.push_str("</ul></body></html>");
    page
}

#[test]
fn listing_with_no_matching_anchors_is_empty_not_an_error() {
    let urls = resolve_listing("<html><body><p>pusty sezon</p></body></html>");
    assert!(urls.is_empty());
}

#[test]
fn listing_anchors_resolve_to_absolute_urls_in_document_order() {
    let page = "<html><body><ul>\
        <li class=\"title\"><h3 class=\"box-title\"><a href=\"/series/1-a\">A</a></h3></li>\
        <li class=\"title\"><h3 class=\"box-title\"><a href=\"/series/2-b\">B</a></h3></li>\
        <li class=\"title\"><h3 class=\"box-title\"><a>no link</a></h3></li>\
        </ul></body></html>";
    let urls = resolve_listing(page);
    assert_eq!(
        urls,
        vec![
            "https://shinden.pl/series/1-a".to_string(),
            "https://shinden.pl/series/2-b".to_string(),
        ]
    );
}

#[test]
fn listing_matches_prepend_the_origin_and_skip_linkless_ones() {
    let matches = vec![
        (Some("/series/1-a".to_string()), "A".to_string()),
        (None, "no link".to_string()),
        (Some("/series/2-b".to_string()), "B".to_string()),
    ];
    assert_eq!(
        absolute_listing_urls(&matches),
        vec![
            "https://shinden.pl/series/1-a".to_string(),
            "https://shinden.pl/series/2-b".to_string(),
        ]
    );
}

#[test]
fn well_formed_page_yields_the_full_entry() {
    let page = detail_page(
        " Boku no Hero Academia: Final Season ",
        &[" TV ", " Emitowane ", " 04.10.2025 "],
        &[
            ("/genre/12-fantasy", " Fantasy "),
            ("/targetgroup/1-shounen", " Shounen "),
            ("/studio/5-bones", " Bones "),
        ],
    );
    let url = "https://shinden.pl/series/68750-boku-no-hero-academia-final-season";
    let anime = scrape_anime_details(&page, url).unwrap();
    assert_eq!(anime.title, "Boku no Hero Academia: Final Season");
    assert_eq!(anime.anime_type, "TV");
    assert_eq!(anime.status, "Emitowane");
    assert_eq!(anime.emmision_date, "04.10.2025");
    assert_eq!(anime.genres, "Fantasy ");
    assert_eq!(anime.target_groups, "Shounen ");
    assert_eq!(anime.shinden_url, url);
    assert_eq!(anime.ogladajanime_url, "");
}

#[test]
fn commas_are_stripped_from_the_title() {
    let page = detail_page("A, B, C", &["TV", "Emitowane", "10.2025"], &[]);
    let anime = scrape_anime_details(&page, "https://shinden.pl/series/3-abc").unwrap();
    assert_eq!(anime.title, "A B C");
    assert_eq!(anime.emmision_date, "??.10.2025");
    assert_eq!(anime.genres, "");
    assert_eq!(anime.target_groups, "");
}

#[test]
fn page_missing_the_title_fails_only_with_missing_title() {
    let page = detail_page("", &["TV", "Emitowane", "04.10.2025"], &[]);
    let r = scrape_anime_details(&page, "https://shinden.pl/series/4-d");
    assert_eq!(r, Err(ScrapeError::MissingTitle));
}

#[test]
fn whitespace_only_title_fails_with_missing_title() {
    let page = detail_page(" \t ", &["TV", "Emitowane", "04.10.2025"], &[]);
    let r = scrape_anime_details(&page, "https://shinden.pl/series/7-g");
    assert_eq!(r, Err(ScrapeError::MissingTitle));
}

#[test]
fn title_of_only_commas_fails_with_missing_title() {
    let titles = vec![(None, " ,, ".to_string())];
    let infos = vec![
        (None, "TV".to_string()),
        (None, "Emitowane".to_string()),
        (None, "04.10.2025".to_string()),
    ];
    let r = extract_details(&titles, &infos, &vec![], "https://shinden.pl/series/8-h");
    assert_eq!(r, Err(ScrapeError::MissingTitle));
}

#[test]
fn missing_info_values_fail_in_fixed_order() {
    let page = detail_page("T", &[], &[]);
    assert_eq!(
        scrape_anime_details(&page, "https://shinden.pl/series/5-e"),
        Err(ScrapeError::MissingType)
    );
    let page = detail_page("T", &["TV"], &[]);
    assert_eq!(
        scrape_anime_details(&page, "https://shinden.pl/series/5-e"),
        Err(ScrapeError::MissingStatus)
    );
    let page = detail_page("T", &["TV", "Emitowane"], &[]);
    assert_eq!(
        scrape_anime_details(&page, "https://shinden.pl/series/5-e"),
        Err(ScrapeError::MissingDate)
    );
}

#[test]
fn extract_details_partitions_tags_by_marker() {
    let titles = vec![(None, "T".to_string())];
    let infos = vec![
        (None, "TV".to_string()),
        (None, "Emitowane".to_string()),
        (None, "04.10.2025".to_string()),
    ];
    let tags = vec![
        (Some("/genre/1-action".to_string()), "Action".to_string()),
        (Some("/genre/2-drama".to_string()), "Drama".to_string()),
        (Some("/targetgroup/3-seinen".to_string()), "Seinen".to_string()),
        (Some("/other/4-x".to_string()), "Ignored".to_string()),
        (None, "NoHref".to_string()),
    ];
    let anime = extract_details(&titles, &infos, &tags, "https://shinden.pl/series/6-f").unwrap();
    assert_eq!(anime.genres, "Action Drama ");
    assert_eq!(anime.target_groups, "Seinen ");
}

#[test]
fn only_status_200_confirms_the_candidate() {
    let candidate = make_ogladajanime_url("Jujutsu Kaisen 3rd Season");
    assert_eq!(confirm_cross_reference(&candidate, Some(200)), candidate);
    assert_eq!(confirm_cross_reference(&candidate, Some(404)), "");
    assert_eq!(confirm_cross_reference(&candidate, Some(301)), "");
    assert_eq!(confirm_cross_reference(&candidate, None), "");
}

#[test]
fn end_to_end_keeps_exactly_the_well_formed_pages_sorted() {
    // A listing with three detail links; two pages are well-formed, one is
    // missing its title. The probe confirms one candidate and fails the
    // other. The output holds exactly the two good entries, sorted.
    let listing = "<html><body>\
        <li class=\"title\"><h3 class=\"box-title\"><a href=\"/series/1-b\">B</a></h3></li>\
        <li class=\"title\"><h3 class=\"box-title\"><a href=\"/series/2-a\">A</a></h3></li>\
        <li class=\"title\"><h3 class=\"box-title\"><a href=\"/series/3-bad\">bad</a></h3></li>\
        </body></html>";
    let urls = resolve_listing(listing);
    assert_eq!(urls.len(), 3);

    let pages = vec![
        detail_page("B Title", &["TV", "Emitowane", "05.01.2025"], &[]),
        detail_page("A Title", &["TV", "Emitowane", "01.01.2025"], &[]),
        detail_page("", &["TV", "Emitowane", "01.01.2025"], &[]),
    ];
    let statuses = vec![Some(200u16), Some(404u16), Some(200u16)];

    let mut all: Vec<Anime> = Vec::new();
    for ((url, page), status) in urls.iter().zip(pages.iter()).zip(statuses.iter()) {
        if let Ok(anime) = scrape_anime_details(page, url) {
            let candidate = make_ogladajanime_url(&anime.title);
            let companion = confirm_cross_reference(&candidate, *status);
            all.push(anime.with_companion(companion));
        }
    }
    assert_eq!(all.len(), 2);
    let sorted = sort_catalog(all);
    assert_eq!(sorted[0].title, "A Title");
    assert_eq!(sorted[1].title, "B Title");
    assert_eq!(sorted[0].ogladajanime_url, "");
    assert_eq!(
        sorted[1].ogladajanime_url,
        "https://ogladajanime.pl/search/name/b-title"
    );
    let rendered = render_catalog(&sorted);
    assert_eq!(rendered.lines().count(), 3);
}
