use nyaasi_scraper::args::{
    get_url, include_amount, should_print, try_parse, Category, Source,
};
use nyaasi_scraper::num::parse_u32;
use nyaasi_scraper::strutil::u64_to_string;

#[test]
fn default_query_url() {
    let u = get_url(None, None, None, None, None, None).unwrap();
    assert_eq!(u, "https://nyaa.si/?f=2&c=0_0&p=1&q=");
}

#[test]
fn full_query_url() {
    let u = get_url(
        Some("sukebei"),
        Some("0"),
        Some("1"),
        Some("2"),
        Some("3"),
        Some("space case"),
    )
    .unwrap();
    assert_eq!(u, "https://sukebei.nyaa.si/?f=0&c=1_2&p=3&q=space+case");
}

#[test]
fn invalid_source_is_rejected() {
    let r = get_url(Some("other"), None, None, None, None, None);
    assert_eq!(r, Err("Invalid source other".to_owned()));
}

#[test]
fn filter_out_of_bounds() {
    let r = get_url(None, Some("3"), None, None, None, None);
    assert_eq!(r, Err("Filter out of bounds: 3 available, got 3".to_owned()));
}

#[test]
fn category_out_of_bounds() {
    let r = get_url(None, None, Some("9"), None, None, None);
    assert_eq!(
        r,
        Err("Category out of bounds: 7 available, got 9".to_owned())
    );
}

#[test]
fn subcategory_rules() {
    // a category without subcategories only accepts subcategory 0
    let r = get_url(None, None, Some("0"), Some("1"), None, None);
    assert_eq!(
        r,
        Err("Subcategory must be 0 for categories without subcategories, got 1".to_owned())
    );
    // a category with subcategories bounds-checks the index
    let r = get_url(None, None, Some("2"), Some("5"), None, None);
    assert_eq!(
        r,
        Err("Subcategory out of bounds: 2 available, for 5".to_owned())
    );
}

#[test]
fn bad_number_reports_its_argument() {
    let r = get_url(None, Some("x"), None, None, None, None);
    assert_eq!(
        r,
        Err("Invalid value for filter: invalid digit found in string".to_owned())
    );
}

#[test]
fn include_amount_defaults_high() {
    assert_eq!(include_amount(None), Ok(10000000));
    assert_eq!(include_amount(Some("25")), Ok(25));
    assert!(include_amount(Some("many")).is_err());
}

#[test]
fn should_print_honours_the_list() {
    assert!(should_print(None, "name"));
    let list = vec!["name".to_owned(), "date".to_owned()];
    assert!(should_print(Some(&list), "name"));
    assert!(should_print(Some(&list), "date"));
    assert!(!should_print(Some(&list), "seeders"));
}

#[test]
fn try_parse_uses_the_default() {
    assert_eq!(try_parse("page", None, 7), Ok(7));
    assert_eq!(try_parse("page", Some("41"), 7), Ok(41));
}

#[test]
fn category_help_lines() {
    let cats = Source::NYAASI.categories();
    let names = Category::names(&cats);
    assert!(names.starts_with("0 - All categories\n1 - Anime\n"));
    let long = Category::names_and_subcategories(&cats);
    assert!(long.contains("1 - Anime\n   1 - Anime Music Video\n   2 - English-translated"));
    let sukebei = Source::SUKEBEI.categories();
    assert_eq!(sukebei.len(), 3);
    assert_eq!(Source::SUKEBEI.base_url(), "https://sukebei.nyaa.si");
}

#[test]
fn number_parsing_matches_std() {
    assert_eq!(parse_u32("+5"), Ok(5));
    assert_eq!(parse_u32("0"), Ok(0));
    assert!(parse_u32("").is_err());
    assert!(parse_u32("12x").is_err());
    assert!(parse_u32("4294967296").is_err());
    assert_eq!(parse_u32("4294967295"), Ok(u32::MAX));
}

#[test]
fn decimal_rendering() {
    assert_eq!(u64_to_string(0), "0");
    assert_eq!(u64_to_string(7), "7");
    assert_eq!(u64_to_string(1234567890), "1234567890");
    assert_eq!(u64_to_string(u64::MAX), "18446744073709551615");
}
