use nyaasi_scraper::magnet_uri::MagnetURI;

#[test]
fn parses_parameters_in_order() {
    let m = MagnetURI::parse("magnet:?xt=urn:btih:abc&dn=Some+Name&xl=123").unwrap();
    assert_eq!(m.params.len(), 3);
    assert_eq!(m.params[0].0, "xt");
    assert_eq!(m.params[0].1, "urn:btih:abc");
    assert_eq!(m.params[1].0, "dn");
    assert_eq!(m.params[2].0, "xl");
}

#[test]
fn repeated_keys_are_all_kept_in_order() {
    let m = MagnetURI::parse("magnet:?tr=http%3A%2F%2Fone&x=1&tr=http%3A%2F%2Ftwo").unwrap();
    assert_eq!(
        m.values("tr"),
        vec!["http://one".to_owned(), "http://two".to_owned()]
    );
}

#[test]
fn length_reads_the_exact_length_key() {
    let m = MagnetURI::parse("magnet:?xl=4096&dn=x").unwrap();
    assert_eq!(m.length(), Some(4096));
}

#[test]
fn length_is_absent_when_missing_or_malformed() {
    let m = MagnetURI::parse("magnet:?dn=x").unwrap();
    assert_eq!(m.length(), None);
    let m = MagnetURI::parse("magnet:?xl=big&dn=x").unwrap();
    assert_eq!(m.length(), None);
}

#[test]
fn non_magnet_strings_give_no_descriptor() {
    assert!(MagnetURI::parse("http://example.com/?a=b").is_none());
    assert!(MagnetURI::parse("magnet:").is_none());
    assert!(MagnetURI::parse("").is_none());
}

#[test]
fn values_are_percent_decoded() {
    let m = MagnetURI::parse("magnet:?dn=Hello%20World%21").unwrap();
    assert_eq!(m.first_value("dn"), Some(&"Hello World!".to_owned()));
}

#[test]
fn multibyte_escapes_decode_as_utf8() {
    let m = MagnetURI::parse("magnet:?dn=price%20%E2%82%AC5").unwrap();
    assert_eq!(m.first_value("dn"), Some(&"price \u{20ac}5".to_owned()));
}

#[test]
fn invalid_utf8_escapes_fall_back_to_raw_text() {
    let m = MagnetURI::parse("magnet:?dn=a%FFb").unwrap();
    assert_eq!(m.first_value("dn"), Some(&"a%FFb".to_owned()));
}

#[test]
fn key_without_value_gets_an_empty_value() {
    let m = MagnetURI::parse("magnet:?flag&dn=x").unwrap();
    assert_eq!(m.first_value("flag"), Some(&"".to_owned()));
}
