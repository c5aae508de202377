use url_shortener::handlers::{
    decode_found, decode_listing, get_key_to_url_map, get_url, get_url_using_key, list_reply,
    list_urls, lookup_reply, set_reply, set_url, set_url_using_key, LookupError, Reply,
    UrlChange, SET_URL_FAILURE_MESSAGE,
};
use url_shortener::store::{MappingStore, StoreError};

fn fresh_store() -> MappingStore {
    let db = sled::Config::new().temporary(true).open().unwrap();
    MappingStore::new(db)
}

#[test]
fn scenario_set_then_redirect() {
    let mut s = fresh_store();
    let r = set_url(&mut s, "abc", Some("https://example.com".to_string()));
    assert!(matches!(r, Reply::Done));
    assert_eq!(r.status(), 200);
    let g = get_url(&s, Some("abc"));
    assert_eq!(g.status(), 302);
    match g {
        Reply::Redirect(u) => assert_eq!(u, "https://example.com"),
        other => panic!("expected a redirect, got {:?}", other),
    }
}

#[test]
fn scenario_missing_key_not_found() {
    let s = fresh_store();
    let g = get_url(&s, Some("missing"));
    assert!(matches!(g, Reply::NotFound));
    assert_eq!(g.status(), 404);
}

#[test]
fn request_without_key_not_found() {
    let s = fresh_store();
    let g = get_url(&s, None);
    assert!(matches!(g, Reply::NotFound));
    assert_eq!(g.status(), 404);
}

#[test]
fn scenario_absent_url_deletes() {
    let mut s = fresh_store();
    assert!(matches!(set_url(&mut s, "abc", Some("https://example.com".to_string())), Reply::Done));
    let r = set_url(&mut s, "abc", None);
    assert!(matches!(r, Reply::Done));
    assert_eq!(r.status(), 200);
    assert!(matches!(get_url(&s, Some("abc")), Reply::NotFound));
}

#[test]
fn scenario_listing_reflects_table() {
    let mut s = fresh_store();
    assert!(matches!(set_url(&mut s, "abc", Some("https://example.com".to_string())), Reply::Done));
    assert!(matches!(set_url(&mut s, "missing", None), Reply::Done));
    assert!(matches!(set_url(&mut s, "abc", None), Reply::Done));
    assert!(matches!(set_url(&mut s, "x", Some("https://x.org".to_string())), Reply::Done));
    assert!(matches!(set_url(&mut s, "y", Some("https://y.org/a?b=c".to_string())), Reply::Done));
    let l = list_urls(&s);
    assert_eq!(l.status(), 200);
    match l {
        Reply::Listing(mut v) => {
            v.sort();
            assert_eq!(
                v,
                vec![
                    ("x".to_string(), "https://x.org".to_string()),
                    ("y".to_string(), "https://y.org/a?b=c".to_string()),
                ]
            );
        }
        other => panic!("expected a listing, got {:?}", other),
    }
}

#[test]
fn listing_of_empty_table() {
    let s = fresh_store();
    assert!(matches!(list_urls(&s), Reply::Listing(v) if v.is_empty()));
}

#[test]
fn get_url_using_key_reads_text() {
    let mut s = fresh_store();
    assert!(set_url_using_key(&mut s, "k", &UrlChange::Upsert("https://k.io".to_string())));
    assert_eq!(get_url_using_key(&s, "k"), Ok(Some("https://k.io".to_string())));
    assert_eq!(get_url_using_key(&s, "other"), Ok(None));
    assert!(set_url_using_key(&mut s, "k", &UrlChange::Delete));
    assert_eq!(get_url_using_key(&s, "k"), Ok(None));
}

#[test]
fn set_url_stores_utf8_encoding() {
    let mut s = fresh_store();
    assert!(matches!(set_url(&mut s, "clé", Some("https://é.fr".to_string())), Reply::Done));
    assert_eq!(
        s.get("clé".as_bytes()),
        Ok(Some("https://é.fr".as_bytes().to_vec()))
    );
}

#[test]
fn stored_invalid_utf8_is_internal_error() {
    let mut s = fresh_store();
    assert_eq!(s.put(b"bad", &[0xff, 0xfe]), Ok(()));
    assert_eq!(get_url_using_key(&s, "bad"), Err(LookupError::InvalidUtf8));
    let g = get_url(&s, Some("bad"));
    assert!(matches!(g, Reply::InternalError));
    assert_eq!(g.status(), 500);
    assert_eq!(get_key_to_url_map(&s), Err(LookupError::InvalidUtf8));
    assert!(matches!(list_urls(&s), Reply::InternalError));
}

#[test]
fn invalid_utf8_key_fails_listing() {
    let mut s = fresh_store();
    assert_eq!(s.put(&[0xc3], b"https://a.b"), Ok(()));
    assert_eq!(get_key_to_url_map(&s), Err(LookupError::InvalidUtf8));
}

#[test]
fn decode_found_cases() {
    assert_eq!(decode_found(Err(StoreError)), Err(LookupError::Store));
    assert_eq!(decode_found(Ok(None)), Ok(None));
    assert_eq!(
        decode_found(Ok(Some(b"https://a.b".to_vec()))),
        Ok(Some("https://a.b".to_string()))
    );
    assert_eq!(
        decode_found(Ok(Some(vec![0xe2, 0x82, 0xac]))),
        Ok(Some("\u{20ac}".to_string()))
    );
    assert_eq!(decode_found(Ok(Some(vec![0x80]))), Err(LookupError::InvalidUtf8));
}

#[test]
fn decode_listing_cases() {
    assert_eq!(decode_listing(Err(StoreError)), Err(LookupError::Store));
    assert_eq!(decode_listing(Ok(vec![])), Ok(vec![]));
    assert_eq!(
        decode_listing(Ok(vec![
            (b"a".to_vec(), b"1".to_vec()),
            (b"b".to_vec(), vec![0xc3, 0xa9]),
        ])),
        Ok(vec![
            ("a".to_string(), "1".to_string()),
            ("b".to_string(), "\u{e9}".to_string()),
        ])
    );
    assert_eq!(
        decode_listing(Ok(vec![(b"a".to_vec(), b"1".to_vec()), (b"b".to_vec(), vec![0xff])])),
        Err(LookupError::InvalidUtf8)
    );
}

#[test]
fn lookup_reply_cases() {
    assert!(matches!(lookup_reply(Ok(Some("u".to_string()))), Reply::Redirect(u) if u == "u"));
    assert!(matches!(lookup_reply(Ok(None)), Reply::NotFound));
    assert!(matches!(lookup_reply(Err(LookupError::Store)), Reply::InternalError));
    assert!(matches!(lookup_reply(Err(LookupError::InvalidUtf8)), Reply::InternalError));
}

#[test]
fn set_reply_cases() {
    let ok = set_reply(true);
    assert!(matches!(ok, Reply::Done));
    assert_eq!(ok.status(), 200);
    let bad = set_reply(false);
    assert!(matches!(bad, Reply::BadRequest));
    assert_eq!(bad.status(), 400);
    assert_eq!(
        SET_URL_FAILURE_MESSAGE,
        "Key is already taken or there was an issue getting the url."
    );
}

#[test]
fn list_reply_cases() {
    let v = vec![("a".to_string(), "b".to_string())];
    assert!(matches!(list_reply(Ok(v.clone())), Reply::Listing(w) if w == v));
    let e = list_reply(Err(LookupError::Store));
    assert!(matches!(e, Reply::InternalError));
    assert_eq!(e.status(), 500);
}

#[test]
fn url_change_from_optional() {
    assert!(matches!(UrlChange::from_optional(Some("u".to_string())), UrlChange::Upsert(u) if u == "u"));
    assert!(matches!(UrlChange::from_optional(None), UrlChange::Delete));
}
