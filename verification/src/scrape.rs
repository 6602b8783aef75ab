//! The extraction pipeline: date normalization, companion-site slug
//! derivation and cross-reference confirmation, listing resolution, and
//! per-page detail extraction over parsed markup.

use vstd::prelude::*;

use crate::anime::Anime;
use crate::text::{
    chars_to_string, contains_sub, contains_substr, lower_char, str_to_chars, strip_commas,
    strip_commas_chars, to_lower_char, trim_chars, trim_spec,
};

verus! {

/// The number of occurrences of `c` in `s`.
pub open spec fn count_char(s: Seq<char>, c: char) -> int
    decreases s.len(),
{
    if s.len() == 0 {
        0
    } else {
        count_char(s.drop_last(), c) + if s.last() == c {
            1int
        } else {
            0int
        }
    }
}

/// A raw emission date with fewer than two `.` separators is missing its
/// day-of-month and gets the placeholder prefix `??.`; a fully specified
/// `dd.mm.yyyy` text is kept unchanged.
pub open spec fn normalized_date(d: Seq<char>) -> Seq<char> {
    if count_char(d, '.') < 2 {
        "??."@ + d
    } else {
        d
    }
}

/// Normalize a raw emission-date text, exactly `normalized_date`.
pub fn make_date(date: &str) -> (r: String)
    ensures
        r@ == normalized_date(date@),
{
    let chars = str_to_chars(date);
    let n: usize = chars.len();
    let mut dots: usize = 0;
    let mut i: usize = 0;
    proof {
        assert(chars@.subrange(0, 0) =~= Seq::<char>::empty());
    }
    while i < n
        invariant
            i <= n,
            n == chars@.len(),
            chars@ == date@,
            dots <= i,
            dots == count_char(chars@.subrange(0, i as int), '.'),
        decreases n - i,
    {
        let c = chars[i];
        if c == '.' {
            dots = dots + 1;
        }
        i = i + 1;
        proof {
            assert(chars@.subrange(0, i as int).drop_last() =~= chars@.subrange(0, i as int - 1));
        }
    }
    proof {
        assert(chars@.subrange(0, n as int) =~= date@);
    }
    if dots < 2 {
        let mut s = String::from_str("??.");
        s.append(date);
        s
    } else {
        String::from_str(date)
    }
}

/// The fixed punctuation blacklist removed during slug derivation.
pub open spec fn is_blacklisted(c: char) -> bool {
    c == '(' || c == ')' || c == '[' || c == ']' || c == '{' || c == '}' || c == '!' || c == '?'
        || c == ':' || c == ';' || c == '"' || c == '\''
}

/// A character kept by slug derivation: ASCII and not blacklisted.
pub open spec fn keep_char(c: char) -> bool {
    (c as u32) < 128 && !is_blacklisted(c)
}

/// Slug derivation, first step: spaces and slashes become dashes.
pub open spec fn dash_char(c: char) -> char {
    if c == ' ' || c == '/' {
        '-'
    } else {
        c
    }
}

/// The slug of a title before the trailing-dot strip: each character has
/// spaces and slashes replaced by dashes, is dropped unless it is ASCII and
/// outside the punctuation blacklist, and is ASCII lower-cased.
pub open spec fn slug_core(s: Seq<char>) -> Seq<char>
    decreases s.len(),
{
    if s.len() == 0 {
        Seq::empty()
    } else {
        slug_core(s.drop_last()) + if keep_char(dash_char(s.last())) {
            seq![lower_char(dash_char(s.last()))]
        } else {
            Seq::<char>::empty()
        }
    }
}

/// The candidate slug of a title: `slug_core` with a single trailing `.`
/// stripped, if one is present.
pub open spec fn slug_of(s: Seq<char>) -> Seq<char> {
    let core = slug_core(s);
    if core.len() > 0 && core.last() == '.' {
        core.drop_last()
    } else {
        core
    }
}

/// Derive the candidate slug of a title, exactly `slug_of`. This is pure
/// normalization: no request is made here.
pub fn make_slug(title: &str) -> (r: String)
    ensures
        r@ == slug_of(title@),
{
    let chars = str_to_chars(title);
    let n: usize = chars.len();
    let mut out: Vec<char> = Vec::new();
    let mut i: usize = 0;
    proof {
        assert(chars@.subrange(0, 0) =~= Seq::<char>::empty());
    }
    while i < n
        invariant
            i <= n,
            n == chars@.len(),
            chars@ == title@,
            out@ == slug_core(chars@.subrange(0, i as int)),
        decreases n - i,
    {
        let c = chars[i];
        let dashed = if c == ' ' || c == '/' {
            '-'
        } else {
            c
        };
        if (dashed as u32) < 128 && !is_blacklisted_char(dashed) {
            out.push(to_lower_char(dashed));
        }
        i = i + 1;
        proof {
            assert(chars@.subrange(0, i as int).drop_last() =~= chars@.subrange(0, i as int - 1));
            assert(out@ =~= slug_core(chars@.subrange(0, i as int)));
        }
    }
    proof {
        assert(chars@.subrange(0, n as int) =~= title@);
    }
    if out.len() > 0 && out[out.len() - 1] == '.' {
        let _ = out.pop();
        proof {
            assert(out@ =~= slug_of(title@));
        }
    }
    chars_to_string(&out)
}

/// Executable test for `is_blacklisted`.
pub fn is_blacklisted_char(c: char) -> (r: bool)
    ensures
        r == is_blacklisted(c),
{
    c == '(' || c == ')' || c == '[' || c == ']' || c == '{' || c == '}' || c == '!' || c == '?'
        || c == ':' || c == ';' || c == '"' || c == '\''
}

/// The candidate companion-site URL of a title: the companion site's fixed
/// search-by-name path (the prefix this project has always probed; no
/// concrete item path exists for it) followed by the derived slug. The
/// strict validating design is the one implemented: the candidate is only
/// emitted after `confirm_cross_reference` sees the probe answer 200.
pub fn make_ogladajanime_url(title: &str) -> (r: String)
    ensures
        r@ == "https://ogladajanime.pl/search/name/"@ + slug_of(title@),
{
    let mut s = String::from_str("https://ogladajanime.pl/search/name/");
    let slug = make_slug(title);
    s.append(slug.as_str());
    s
}

/// The decision of the validating cross-reference probe: only a response
/// with status exactly 200 confirms the candidate URL; any other status, or
/// a transport failure (`None`), degrades to the empty-string sentinel.
pub fn confirm_cross_reference(candidate: &str, status: Option<u16>) -> (r: String)
    ensures
        status == Some(200u16) ==> r@ == candidate@,
        status != Some(200u16) ==> r@ == Seq::<char>::empty(),
{
    match status {
        Some(code) if code == 200 => String::from_str(candidate),
        _ => String::new(),
    }
}

/// A character that slug derivation can emit: dashing, the keep filter and
/// lower-casing all leave it unchanged.
pub open spec fn slug_char(c: char) -> bool {
    keep_char(c) && dash_char(c) == c && lower_char(c) == c
}

/// Every character that `slug_core` emits is a `slug_char`.
pub proof fn lemma_slug_core_chars(s: Seq<char>)
    ensures
        forall|i: int| 0 <= i < slug_core(s).len() ==> #[trigger] slug_char(slug_core(s)[i]),
    decreases s.len(),
{
    if s.len() > 0 {
        lemma_slug_core_chars(s.drop_last());
        let pre = slug_core(s.drop_last());
        let d = dash_char(s.last());
        if keep_char(d) {
            assert(slug_char(lower_char(d))) by {
                vstd::utf8::char_u32_cast(d, d as u32);
                if 'A' <= d && d <= 'Z' {
                    assert(lower_char(d) == ((d as u8) + 32) as char);
                }
            }
            assert(slug_core(s) == pre + seq![lower_char(d)]);
            assert forall|i: int| 0 <= i < slug_core(s).len() implies #[trigger] slug_char(
                slug_core(s)[i],
            ) by {
                if i < pre.len() {
                    assert(slug_core(s)[i] == pre[i]);
                } else {
                    assert(slug_core(s)[i] == lower_char(d));
                }
            }
        } else {
            assert(slug_core(s) =~= pre);
        }
    }
}

/// On a sequence of `slug_char`s, `slug_core` is the identity.
pub proof fn lemma_slug_core_fixed(t: Seq<char>)
    requires
        forall|i: int| 0 <= i < t.len() ==> #[trigger] slug_char(t[i]),
    ensures
        slug_core(t) == t,
    decreases t.len(),
{
    if t.len() > 0 {
        lemma_slug_core_fixed(t.drop_last());
        assert(slug_char(t.last()));
        assert(slug_core(t) =~= t);
    }
}

/// Slug derivation before the trailing-dot strip is idempotent.
pub proof fn lemma_slug_core_idempotent(s: Seq<char>)
    ensures
        slug_core(slug_core(s)) == slug_core(s),
{
    lemma_slug_core_chars(s);
    lemma_slug_core_fixed(slug_core(s));
}

/// What selecting on a document yields: for each element of the document
/// text that matches the structural selector, in the fixed order the parsed
/// document's node arena yields them (its insertion order, which is document
/// order for ordinary markup), its `href` attribute (if any) and its inner
/// HTML.
pub uninterp spec fn selected(html: Seq<char>, selector: Seq<char>) -> Seq<
    (Option<Seq<char>>, Seq<char>),
>;

/// Relies on scraper's `Html::parse_document`, `Selector::parse`,
/// `Html::select`, `ElementRef::attr` and `ElementRef::inner_html`: parsing
/// a document and matching a selector against it are deterministic, and the
/// matches come back in the fixed iteration order of the parsed node arena,
/// so the matched elements' `href` attributes and inner HTML are a function
/// of the document text and the selector text alone. A selector text that
/// does not parse as a CSS selector matches nothing.
#[verifier::external_body]
fn select_elements(html: &str, selector: &str) -> (r: Vec<(Option<String>, String)>)
    ensures
        r.deep_view() == selected(html@, selector@),
{
    let sel = match scraper::Selector::parse(selector) {
        Ok(sel) => sel,
        Err(_) => {
            return Vec::new();
        },
    };
    let document = scraper::Html::parse_document(html);
    document
        .select(&sel)
        .map(|element| (element.attr("href").map(|a| a.to_string()), element.inner_html()))
        .collect()
}

/// The absolute detail-page URLs of a listing page's matches: the site
/// origin prepended to each match's link attribute; a match without one is
/// passed over.
pub open spec fn listing_urls(ms: Seq<(Option<Seq<char>>, Seq<char>)>) -> Seq<Seq<char>>
    decreases ms.len(),
{
    if ms.len() == 0 {
        Seq::empty()
    } else {
        listing_urls(ms.drop_last()) + match ms.last().0 {
            Some(h) => seq!["https://shinden.pl"@ + h],
            None => Seq::<Seq<char>>::empty(),
        }
    }
}

/// Resolve a listing page to the ordered detail-page URLs of its matching
/// anchors. A page with no matching anchors yields the empty sequence; that
/// is a valid outcome, not an error.
pub fn resolve_listing(html: &str) -> (urls: Vec<String>)
    ensures
        urls.deep_view() == listing_urls(selected(html@, "li.title > h3.box-title > a"@)),
{
    let matches = select_elements(html, "li.title > h3.box-title > a");
    absolute_listing_urls(&matches)
}

/// Turn the matches of the listing selector into absolute detail-page URLs,
/// exactly `listing_urls`: the site origin prepended to each link attribute,
/// in match order, passing over matches without one.
pub fn absolute_listing_urls(matches: &Vec<(Option<String>, String)>) -> (urls: Vec<String>)
    ensures
        urls.deep_view() == listing_urls(matches.deep_view()),
{
    let ghost ms = matches.deep_view();
    let n: usize = matches.len();
    let mut urls: Vec<String> = Vec::new();
    let mut i: usize = 0;
    proof {
        assert(ms.subrange(0, 0) =~= Seq::<(Option<Seq<char>>, Seq<char>)>::empty());
        assert(urls.deep_view() =~= listing_urls(ms.subrange(0, 0)));
    }
    while i < n
        invariant
            i <= n,
            n == matches@.len(),
            matches.deep_view() == ms,
            urls.deep_view() == listing_urls(ms.subrange(0, i as int)),
        decreases n - i,
    {
        proof {
            assert(matches.deep_view()[i as int] == matches@[i as int].deep_view());
        }
        let ghost old_urls = urls.deep_view();
        match &matches[i].0 {
            Some(href) => {
                let mut u = String::from_str("https://shinden.pl");
                u.append(href.as_str());
                urls.push(u);
                proof {
                    assert(urls.deep_view() =~= old_urls + seq![
                        "https://shinden.pl"@ + href@,
                    ]);
                }
            },
            None => {},
        }
        i = i + 1;
        proof {
            assert(ms.subrange(0, i as int).drop_last() =~= ms.subrange(0, i as int - 1));
            assert(ms.subrange(0, i as int).last() == ms[i as int - 1]);
            assert(urls.deep_view() =~= listing_urls(ms.subrange(0, i as int)));
        }
    }
    proof {
        assert(ms.subrange(0, n as int) =~= ms);
    }
    urls
}

/// A listing whose selector matched nothing resolves to no URLs at all:
/// a valid, if degenerate, outcome, never a failure.
pub proof fn lemma_empty_listing_yields_no_urls(ms: Seq<(Option<Seq<char>>, Seq<char>)>)
    requires
        ms.len() == 0,
    ensures
        listing_urls(ms).len() == 0,
{
}

/// The per-item failures of detail extraction: a required structural
/// selector matched nothing. Such a failure skips the item; it never aborts
/// the run.
#[derive(Clone, Copy, Debug, PartialEq, Eq, Structural)]
pub enum ScrapeError {
    MissingTitle,
    MissingType,
    MissingStatus,
    MissingDate,
}

/// The link attribute of a tag match; a missing attribute reads as empty.
pub open spec fn tag_href(m: (Option<Seq<char>>, Seq<char>)) -> Seq<char> {
    match m.0 {
        Some(h) => h,
        None => Seq::empty(),
    }
}

/// A tag match counted as a genre: its link holds the genre path marker.
pub open spec fn is_genre_tag(m: (Option<Seq<char>>, Seq<char>)) -> bool {
    contains_sub(tag_href(m), "/genre/"@)
}

/// A tag match counted as a target group: not a genre, and its link holds
/// the target-audience path marker.
pub open spec fn is_target_tag(m: (Option<Seq<char>>, Seq<char>)) -> bool {
    !is_genre_tag(m) && contains_sub(tag_href(m), "/targetgroup/"@)
}

/// The space-joined genre tags of the matches, each trimmed, each followed
/// by a single space.
pub open spec fn genres_text(ms: Seq<(Option<Seq<char>>, Seq<char>)>) -> Seq<char>
    decreases ms.len(),
{
    if ms.len() == 0 {
        Seq::empty()
    } else {
        genres_text(ms.drop_last()) + if is_genre_tag(ms.last()) {
            trim_spec(ms.last().1) + " "@
        } else {
            Seq::<char>::empty()
        }
    }
}

/// The space-joined target-audience tags of the matches, each trimmed, each
/// followed by a single space.
pub open spec fn targets_text(ms: Seq<(Option<Seq<char>>, Seq<char>)>) -> Seq<char>
    decreases ms.len(),
{
    if ms.len() == 0 {
        Seq::empty()
    } else {
        targets_text(ms.drop_last()) + if is_target_tag(ms.last()) {
            trim_spec(ms.last().1) + " "@
        } else {
            Seq::<char>::empty()
        }
    }
}

/// The title text of the first title match: trimmed, commas stripped. A
/// match whose text reduces to empty counts as a missing title: no entry
/// with an empty title is ever produced.
pub open spec fn title_text(titles: Seq<(Option<Seq<char>>, Seq<char>)>) -> Seq<char> {
    strip_commas(trim_spec(titles[0].1))
}

/// The title is present: some element matched, and its text does not reduce
/// to empty.
pub open spec fn has_title(titles: Seq<(Option<Seq<char>>, Seq<char>)>) -> bool {
    titles.len() > 0 && title_text(titles).len() > 0
}

/// What detail extraction returns for the given selector matches: exactly
/// which missing required field fails the item, or the entry built from the
/// matches. The companion URL starts out empty; cross-reference resolution
/// fills it in afterwards.
pub open spec fn extraction_post(
    titles: Seq<(Option<Seq<char>>, Seq<char>)>,
    infos: Seq<(Option<Seq<char>>, Seq<char>)>,
    tags: Seq<(Option<Seq<char>>, Seq<char>)>,
    url: Seq<char>,
    r: Result<Anime, ScrapeError>,
) -> bool {
    &&& (!has_title(titles) ==> r == Err::<Anime, ScrapeError>(ScrapeError::MissingTitle))
    &&& (has_title(titles) && infos.len() == 0 ==> r == Err::<Anime, ScrapeError>(
        ScrapeError::MissingType,
    ))
    &&& (has_title(titles) && infos.len() == 1 ==> r == Err::<Anime, ScrapeError>(
        ScrapeError::MissingStatus,
    ))
    &&& (has_title(titles) && infos.len() == 2 ==> r == Err::<Anime, ScrapeError>(
        ScrapeError::MissingDate,
    ))
    &&& (has_title(titles) && infos.len() >= 3 ==> {
        &&& r is Ok
        &&& r->Ok_0.title@.len() > 0
        &&& r->Ok_0.title@ == title_text(titles)
        &&& r->Ok_0.anime_type@ == trim_spec(infos[0].1)
        &&& r->Ok_0.status@ == trim_spec(infos[1].1)
        &&& r->Ok_0.emmision_date@ == normalized_date(trim_spec(infos[2].1))
        &&& r->Ok_0.genres@ == genres_text(tags)
        &&& r->Ok_0.target_groups@ == targets_text(tags)
        &&& r->Ok_0.shinden_url@ == url
        &&& r->Ok_0.ogladajanime_url@ == Seq::<char>::empty()
    })
}

/// Build one catalog entry from the three selections of a detail page. Each
/// required field comes from its fixed match; a missing one fails the item
/// with its own error, and no partial entry is produced. A title match whose
/// text reduces to empty is a missing title: every entry handed out has a
/// non-empty title.
pub fn extract_details(
    titles: &Vec<(Option<String>, String)>,
    infos: &Vec<(Option<String>, String)>,
    tags: &Vec<(Option<String>, String)>,
    url: &str,
) -> (r: Result<Anime, ScrapeError>)
    ensures
        extraction_post(titles.deep_view(), infos.deep_view(), tags.deep_view(), url@, r),
{
    if titles.len() == 0 {
        return Err(ScrapeError::MissingTitle);
    }
    proof {
        assert(titles.deep_view()[0] == titles@[0].deep_view());
    }
    let title_chars = strip_commas_chars(&trim_chars(&str_to_chars(titles[0].1.as_str())));
    if title_chars.len() == 0 {
        return Err(ScrapeError::MissingTitle);
    }
    if infos.len() == 0 {
        return Err(ScrapeError::MissingType);
    }
    if infos.len() == 1 {
        return Err(ScrapeError::MissingStatus);
    }
    if infos.len() == 2 {
        return Err(ScrapeError::MissingDate);
    }
    proof {
        assert(infos.deep_view()[0] == infos@[0].deep_view());
        assert(infos.deep_view()[1] == infos@[1].deep_view());
        assert(infos.deep_view()[2] == infos@[2].deep_view());
    }
    let title = chars_to_string(&title_chars);
    let anime_type = chars_to_string(&trim_chars(&str_to_chars(infos[0].1.as_str())));
    let status = chars_to_string(&trim_chars(&str_to_chars(infos[1].1.as_str())));
    let date_raw = chars_to_string(&trim_chars(&str_to_chars(infos[2].1.as_str())));
    let emmision_date = make_date(date_raw.as_str());
    let (genres, target_groups) = partition_tags(tags);
    Ok(
        Anime {
            title,
            anime_type,
            status,
            emmision_date,
            genres,
            target_groups,
            shinden_url: String::from_str(url),
            ogladajanime_url: String::new(),
        },
    )
}

/// Partition the tag matches into the space-joined genre and target-group
/// texts, by each match's link attribute; a tag with neither marker is
/// passed over.
pub fn partition_tags(tags: &Vec<(Option<String>, String)>) -> (r: (String, String))
    ensures
        r.0@ == genres_text(tags.deep_view()),
        r.1@ == targets_text(tags.deep_view()),
{
    let ghost ms = tags.deep_view();
    let genre_marker = str_to_chars("/genre/");
    let target_marker = str_to_chars("/targetgroup/");
    let n: usize = tags.len();
    let mut genres: Vec<char> = Vec::new();
    let mut targets: Vec<char> = Vec::new();
    let mut i: usize = 0;
    proof {
        reveal_strlit(" ");
        assert(ms.subrange(0, 0) =~= Seq::<(Option<Seq<char>>, Seq<char>)>::empty());
    }
    while i < n
        invariant
            i <= n,
            n == tags@.len(),
            tags.deep_view() == ms,
            genre_marker@ == "/genre/"@,
            target_marker@ == "/targetgroup/"@,
            genres@ == genres_text(ms.subrange(0, i as int)),
            targets@ == targets_text(ms.subrange(0, i as int)),
        decreases n - i,
    {
        proof {
            reveal_strlit(" ");
            assert(tags.deep_view()[i as int] == tags@[i as int].deep_view());
        }
        let href_chars = match &tags[i].0 {
            Some(h) => str_to_chars(h.as_str()),
            None => Vec::new(),
        };
        proof {
            assert(href_chars@ == tag_href(ms[i as int]));
        }
        if contains_substr(&href_chars, &genre_marker) {
            let mut t = trim_chars(&str_to_chars(tags[i].1.as_str()));
            genres.append(&mut t);
            genres.push(' ');
            proof {
                assert(genres@ =~= genres_text(ms.subrange(0, i as int)) + trim_spec(
                    ms[i as int].1,
                ) + " "@);
            }
        } else if contains_substr(&href_chars, &target_marker) {
            let mut t = trim_chars(&str_to_chars(tags[i].1.as_str()));
            targets.append(&mut t);
            targets.push(' ');
            proof {
                assert(targets@ =~= targets_text(ms.subrange(0, i as int)) + trim_spec(
                    ms[i as int].1,
                ) + " "@);
            }
        }
        i = i + 1;
        proof {
            assert(ms.subrange(0, i as int).drop_last() =~= ms.subrange(0, i as int - 1));
            assert(ms.subrange(0, i as int).last() == ms[i as int - 1]);
            assert(genres@ =~= genres_text(ms.subrange(0, i as int)));
            assert(targets@ =~= targets_text(ms.subrange(0, i as int)));
        }
    }
    proof {
        assert(ms.subrange(0, n as int) =~= ms);
    }
    (chars_to_string(&genres), chars_to_string(&targets))
}

/// Extract the structured fields of one catalog entry from the text of its
/// detail page. The failure of any required field fails only this item; the
/// caller skips it and goes on.
pub fn scrape_anime_details(html: &str, url: &str) -> (r: Result<Anime, ScrapeError>)
    ensures
        extraction_post(
            selected(html@, "h1.page-title > span.title"@),
            selected(html@, "dl.info-aside-list > dd"@),
            selected(html@, "ul.tags > li > a.button-with-tip"@),
            url@,
            r,
        ),
{
    let titles = select_elements(html, "h1.page-title > span.title");
    let infos = select_elements(html, "dl.info-aside-list > dd");
    let tags = select_elements(html, "ul.tags > li > a.button-with-tip");
    extract_details(&titles, &infos, &tags, url)
}

/// Full slug derivation is idempotent on every title whose slug does not end
/// in a `.` (a slug ending in `.` arises only from a title whose kept
/// characters end in two or more dots; re-deriving strips one more).
pub proof fn lemma_slug_idempotent(s: Seq<char>)
    requires
        slug_of(s).len() == 0 || slug_of(s).last() != '.',
    ensures
        slug_of(slug_of(s)) == slug_of(s),
{
    lemma_slug_core_chars(s);
    let core = slug_core(s);
    let t = slug_of(s);
    assert(forall|i: int| 0 <= i < t.len() ==> #[trigger] slug_char(t[i])) by {
        if core.len() > 0 && core.last() == '.' {
            assert(forall|i: int| 0 <= i < t.len() ==> t[i] == core[i]);
        }
    }
    lemma_slug_core_fixed(t);
}

} // verus!
