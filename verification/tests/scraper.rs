use nyaasi_scraper::errors::ParseError;
use nyaasi_scraper::{parse_html, EntryKind, Results};

// Three rows in newest-first document order, plus pagination around page 2.
fn listing_html() -> String {
    let mut h = String::new();
    h.push_str("<html><body><div class=\"table-responsive\"><table><tbody>");
    // newest row: comments, an exact-length magnet, two trackers
    h.push_str("<tr class=\"default\">");
    h.push_str("<td><a class=\"comments\" href=\"/view/3#comments\"><i>3</i></a></td>");
    h.push_str("<td><a href=\"/view/3\">Newest entry</a></td>");
    h.push_str("<td class=\"text-center\"><a href=\"/download/3.torrent\"><i class=\"fa-download\"></i></a><a href=\"magnet:?xt=urn:btih:ccc&amp;dn=Newest&amp;xl=2048&amp;tr=http%3A%2F%2Ft1%2Fannounce&amp;tr=http%3A%2F%2Ft2%2Fannounce\"><i class=\"fa-magnet\"></i></a></td>");
    h.push_str("<td class=\"text-center\">1.5 KiB</td>");
    h.push_str("<td class=\"text-center\">2020-01-03 10:00</td>");
    h.push_str("<td class=\"text-center\">12</td>");
    h.push_str("<td class=\"text-center\">3</td>");
    h.push_str("<td class=\"text-center\">45</td>");
    h.push_str("</tr>");
    // middle row: trusted, no comment marker, magnet without exact length
    h.push_str("<tr class=\"success\">");
    h.push_str("<td></td>");
    h.push_str("<td><a href=\"/view/2\">Middle entry</a></td>");
    h.push_str("<td class=\"text-center\"><a href=\"/download/2.torrent\"><i class=\"fa-download\"></i></a><a href=\"magnet:?xt=urn:btih:bbb&amp;dn=Middle\"><i class=\"fa-magnet\"></i></a></td>");
    h.push_str("<td class=\"text-center\">8 KiB</td>");
    h.push_str("<td class=\"text-center\">2020-01-02 10:00</td>");
    h.push_str("<td class=\"text-center\">7</td>");
    h.push_str("<td class=\"text-center\">1</td>");
    h.push_str("<td class=\"text-center\">9</td>");
    h.push_str("</tr>");
    // oldest row: unknown status marker, name anchor without href
    h.push_str("<tr class=\"oddity\">");
    h.push_str("<td></td>");
    h.push_str("<td><a>Oldest entry</a></td>");
    h.push_str("<td class=\"text-center\"><a href=\"/download/1.torrent\"><i class=\"fa-download\"></i></a><a href=\"magnet:?xt=urn:btih:aaa&amp;dn=Oldest\"><i class=\"fa-magnet\"></i></a></td>");
    h.push_str("<td class=\"text-center\">0.5 MiB</td>");
    h.push_str("<td class=\"text-center\">2020-01-01 10:00</td>");
    h.push_str("<td class=\"text-center\">0</td>");
    h.push_str("<td class=\"text-center\">0</td>");
    h.push_str("<td class=\"text-center\">2</td>");
    h.push_str("</tr>");
    h.push_str("</tbody></table></div>");
    h.push_str("<ul class=\"pagination\">");
    h.push_str("<li class=\"previous disabled\"><a rel=\"prev\" href=\"/?p=1\">Prev</a></li>");
    h.push_str("<li><a href=\"/?p=1\">1</a></li>");
    h.push_str("<li class=\"active\"><a href=\"/?p=2\">2 <span>(current)</span></a></li>");
    h.push_str("<li><a href=\"/?p=3\">3</a></li>");
    h.push_str("<li class=\"next\"><a rel=\"next\" href=\"/?p=3\">Next</a></li>");
    h.push_str("</ul></body></html>");
    h
}

const BASE: &str = "https://nyaa.si?p=2";

#[test]
fn entries_come_back_oldest_first() {
    let r = parse_html(&listing_html(), BASE).unwrap();
    assert_eq!(r.entries.len(), 3);
    assert_eq!(r.entries[0].name, "Oldest entry");
    assert_eq!(r.entries[1].name, "Middle entry");
    assert_eq!(r.entries[2].name, "Newest entry");
}

#[test]
fn entry_fields_are_extracted() {
    let r = parse_html(&listing_html(), BASE).unwrap();
    let newest = &r.entries[2];
    assert_eq!(newest.url, "https://nyaa.si/view/3");
    assert_eq!(newest.kind, EntryKind::Default);
    assert_eq!(newest.comments, 3);
    assert_eq!(newest.links.torrent, "https://nyaa.si/download/3.torrent");
    assert!(newest.links.magnet.starts_with("magnet:?xt=urn:btih:ccc"));
    assert_eq!(newest.sizes.raw, "1.5 KiB");
    assert_eq!(newest.sizes.parsed_from_raw, Some(1536));
    assert_eq!(newest.sizes.parsed_from_magnet, Some(2048));
    assert_eq!(newest.date, "2020-01-03 10:00");
    assert_eq!(newest.seeders, 12);
    assert_eq!(newest.leechers, 3);
    assert_eq!(newest.downloads, 45);

    let middle = &r.entries[1];
    assert_eq!(middle.kind, EntryKind::Trusted);
    assert_eq!(middle.comments, 0);
    assert_eq!(middle.sizes.parsed_from_raw, Some(8192));
    assert_eq!(middle.sizes.parsed_from_magnet, None);
}

#[test]
fn missing_href_resolves_to_the_base_url() {
    let r = parse_html(&listing_html(), BASE).unwrap();
    // the oldest row's name anchor has no href: the entry URL is the
    // normalized base URL (note the slash url parsing adds)
    assert_eq!(r.entries[0].url, "https://nyaa.si/?p=2");
}

#[test]
fn unknown_status_marker_is_preserved() {
    let r = parse_html(&listing_html(), BASE).unwrap();
    assert_eq!(r.entries[0].kind, EntryKind::Unknown("oddity".to_owned()));
}

#[test]
fn magnet_trackers_are_both_kept() {
    let r = parse_html(&listing_html(), BASE).unwrap();
    let magnet = r.entries[2].links.parsed_magnet.as_ref().unwrap();
    let trackers = magnet.values("tr");
    assert_eq!(
        trackers,
        vec![
            "http://t1/announce".to_owned(),
            "http://t2/announce".to_owned()
        ]
    );
}

#[test]
fn pagination_is_extracted() {
    let r = parse_html(&listing_html(), BASE).unwrap();
    let p = r.pagination.unwrap();
    assert_eq!(p.current.number, 2);
    assert_eq!(p.current.url, "https://nyaa.si/?p=2");
    let numbers: Vec<u32> = p.pages.iter().map(|x| x.number).collect();
    assert_eq!(numbers, vec![1, 2, 3]);
}

#[test]
fn exactly_one_page_is_current() {
    let r = parse_html(&listing_html(), BASE).unwrap();
    let p = r.pagination.unwrap();
    let hits = p
        .pages
        .iter()
        .filter(|x| x.number == p.current.number)
        .count();
    assert_eq!(hits, 1);
}

#[test]
fn disabled_current_page_leaves_the_page_list() {
    // an active item that also carries the disabled class is excluded from
    // the page list, so no page carries the current number
    let html = listing_html().replace("class=\"active\"", "class=\"active disabled\"");
    let r = parse_html(&html, BASE).unwrap();
    let p = r.pagination.unwrap();
    assert_eq!(p.current.number, 2);
    let numbers: Vec<u32> = p.pages.iter().map(|x| x.number).collect();
    assert_eq!(numbers, vec![1, 3]);
}

#[test]
fn parsing_twice_gives_equal_results() {
    let html = listing_html();
    let a = parse_html(&html, BASE).unwrap();
    let b = parse_html(&html, BASE).unwrap();
    assert_eq!(a, b);
}

#[test]
fn missing_table_marker_fails_whole_parse() {
    let r = parse_html("<html><body><p>nothing here</p></body></html>", BASE);
    assert_eq!(r, Err(ParseError::TableNotFound));
}

#[test]
fn malformed_seeder_count_aborts_the_call() {
    let html = listing_html().replace(
        "<td class=\"text-center\">12</td>",
        "<td class=\"text-center\">lots</td>",
    );
    let r = parse_html(&html, BASE);
    match r {
        Err(ParseError::FieldParseError { field, raw, .. }) => {
            assert_eq!(field, "td.text-center:nth-child(6)");
            assert_eq!(raw, "lots");
        }
        other => panic!("expected a field parse error, got {:?}", other),
    }
}

#[test]
fn invalid_base_url_is_rejected() {
    let r = parse_html(&listing_html(), "not a url");
    assert_eq!(r, Err(ParseError::InvalidBaseUrl));
}

#[test]
fn single_page_listing_has_no_pagination() {
    let html = listing_html().replace("class=\"active\"", "class=\"plain\"");
    let r = parse_html(&html, BASE).unwrap();
    assert!(r.pagination.is_none());
}

#[test]
fn empty_results_value() {
    let r = Results::empty();
    assert_eq!(r.entries.len(), 0);
    assert!(r.pagination.is_none());
}

#[test]
fn missing_download_icon_is_a_selector_error() {
    // drop the newest row's download icon: its selector has no match
    let html = listing_html().replace(
        "<a href=\"/download/3.torrent\"><i class=\"fa-download\"></i></a>",
        "",
    );
    match parse_html(&html, BASE) {
        Err(ParseError::SelectorNotFound { selector, .. }) => {
            assert_eq!(selector, "td.text-center:nth-child(3) > a > i.fa-download");
        }
        other => panic!("expected a selector error, got {:?}", other),
    }
}

#[test]
fn row_without_status_marker_is_an_attribute_error() {
    let html = listing_html().replace("<tr class=\"success\">", "<tr>");
    match parse_html(&html, BASE) {
        Err(ParseError::AttributeMissing { name, path }) => {
            assert_eq!(name, "class");
            assert!(path.contains("tr"));
        }
        other => panic!("expected an attribute error, got {:?}", other),
    }
}

#[test]
fn unresolvable_href_is_a_join_error() {
    let html = listing_html().replace(
        "<a href=\"/view/3\">Newest entry</a>",
        "<a href=\"http://[oops\">Newest entry</a>",
    );
    match parse_html(&html, BASE) {
        Err(ParseError::UrlJoinError { raw, .. }) => {
            assert_eq!(raw, "http://[oops");
        }
        other => panic!("expected a join error, got {:?}", other),
    }
}

#[test]
fn bad_page_number_is_a_pagination_error() {
    let html = listing_html().replace(
        "<li class=\"active\"><a href=\"/?p=2\">2 <span>(current)</span></a></li>",
        "<li class=\"active\"><a href=\"/?p=2\">two</a></li>",
    );
    match parse_html(&html, BASE) {
        Err(ParseError::PaginationError { cause }) => match *cause {
            ParseError::FieldParseError { ref field, ref raw, .. } => {
                assert_eq!(field, "page number");
                assert_eq!(raw, "two");
            }
            ref other => panic!("expected a field error inside, got {:?}", other),
        },
        other => panic!("expected a pagination error, got {:?}", other),
    }
}

#[test]
fn errors_describe_themselves() {
    let e = parse_html("<p></p>", BASE).unwrap_err();
    assert_eq!(e.message(), "Unable to find results table");
}

#[test]
fn kind_lookup_table() {
    assert_eq!(EntryKind::from_class_name("deleted"), EntryKind::Deleted);
    assert_eq!(EntryKind::from_class_name("warning"), EntryKind::Hidden);
    assert_eq!(EntryKind::from_class_name("danger"), EntryKind::Remake);
    assert_eq!(EntryKind::from_class_name("success"), EntryKind::Trusted);
    assert_eq!(EntryKind::from_class_name("default"), EntryKind::Default);
    assert_eq!(
        EntryKind::from_class_name("weird marker"),
        EntryKind::Unknown("weird marker".to_owned())
    );
}
