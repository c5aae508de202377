//! The request logic of the URL shortener: each request becomes exactly one
//! store operation, and its outcome becomes a reply.
//!
//! Keys and URLs are text; the store holds their UTF-8 encodings.
use crate::store::{lists_exactly, lookup, others_unchanged, pairs_view, MappingStore, StoreError};
use vstd::prelude::*;
use vstd::slice::slice_to_vec;
use vstd::utf8::{encode_utf8, valid_utf8};

verus! {

/// The message sent with a failed `/set_url` request.
pub const SET_URL_FAILURE_MESSAGE: &'static str = "Key is already taken or there was an issue getting the url.";

/// Relies on String::from_utf8: it succeeds exactly on valid UTF-8, and the
/// string it returns keeps those bytes as its encoding.
#[verifier::external_body]
fn string_from_utf8(bytes: Vec<u8>) -> (r: Option<String>)
    ensures
        r is Some <==> valid_utf8(bytes@),
        r matches Some(s) ==> encode_utf8(s@) == bytes@,
{
    String::from_utf8(bytes).ok()
}

/// Why a URL, or the listing of all URLs, could not be produced.
#[derive(Clone, Copy, Debug, PartialEq, Eq, Structural)]
pub enum LookupError {
    /// The store failed.
    Store,
    /// Stored bytes are not valid UTF-8.
    InvalidUtf8,
}

/// What a `/set_url` request asks for: map the key to a URL, or, where no
/// URL is given, remove the key.
#[derive(Debug)]
pub enum UrlChange {
    Upsert(String),
    Delete,
}

/// The change that an optional URL asks for.
pub open spec fn change_of(url: Option<String>) -> UrlChange {
    match url {
        Some(u) => UrlChange::Upsert(u),
        None => UrlChange::Delete,
    }
}

/// The table after `change` is applied to `key` (given as its encoding).
pub open spec fn apply_change(m: Map<Seq<u8>, Seq<u8>>, key: Seq<u8>, change: UrlChange) -> Map<Seq<u8>, Seq<u8>> {
    match change {
        UrlChange::Upsert(url) => m.insert(key, encode_utf8(url@)),
        UrlChange::Delete => m.remove(key),
    }
}

/// `new` is `old` with `change` applied to `key` or not applied at all: no
/// other key differs, and `key` holds its old value or the changed one.
pub open spec fn at_most_applied(
    old: Map<Seq<u8>, Seq<u8>>,
    new: Map<Seq<u8>, Seq<u8>>,
    key: Seq<u8>,
    change: UrlChange,
) -> bool {
    &&& others_unchanged(old, new, key)
    &&& lookup(new, key) == lookup(old, key) || lookup(new, key) == lookup(apply_change(old, key, change), key)
}

impl UrlChange {
    /// A present URL is an upsert; an absent one is a delete.
    pub fn from_optional(url: Option<String>) -> (r: UrlChange)
        ensures
            r == change_of(url),
    {
        match url {
            Some(u) => UrlChange::Upsert(u),
            None => UrlChange::Delete,
        }
    }
}

/// The outcome of a request, as the HTTP layer is to render it.
#[derive(Debug)]
pub enum Reply {
    /// A redirect to the URL.
    Redirect(String),
    /// Success, with an empty body.
    Done,
    /// The key is missing from the request or from the table.
    NotFound,
    /// A change could not be stored; the body is `SET_URL_FAILURE_MESSAGE`.
    BadRequest,
    /// The store failed, or stored bytes are not valid UTF-8.
    InternalError,
    /// Every key with its URL, each key once.
    Listing(Vec<(String, String)>),
}

/// The HTTP status of a reply.
pub open spec fn status_of(r: &Reply) -> u16 {
    match r {
        Reply::Redirect(_) => 302,
        Reply::Done => 200,
        Reply::NotFound => 404,
        Reply::BadRequest => 400,
        Reply::InternalError => 500,
        Reply::Listing(_) => 200,
    }
}

impl Reply {
    /// The HTTP status code of this reply.
    pub fn status(&self) -> (r: u16)
        ensures
            r == status_of(self),
    {
        match self {
            Reply::Redirect(_) => 302,
            Reply::Done => 200,
            Reply::NotFound => 404,
            Reply::BadRequest => 400,
            Reply::InternalError => 500,
            Reply::Listing(_) => 200,
        }
    }
}

/// Turns what the store returned for a key into the URL it holds: a store
/// failure stays a failure, an absent key gives `None`, and stored bytes give
/// the URL they encode, or `InvalidUtf8` where they encode none.
pub fn decode_found(found: Result<Option<Vec<u8>>, StoreError>) -> (r: Result<Option<String>, LookupError>)
    ensures
        match found {
            Err(_) => r == Err::<Option<String>, LookupError>(LookupError::Store),
            Ok(None) => r == Ok::<Option<String>, LookupError>(None),
            Ok(Some(b)) => if valid_utf8(b@) {
                r matches Ok(Some(u)) && encode_utf8(u@) == b@
            } else {
                r == Err::<Option<String>, LookupError>(LookupError::InvalidUtf8)
            },
        },
{
    match found {
        Err(_) => Err(LookupError::Store),
        Ok(None) => Ok(None),
        Ok(Some(b)) => match string_from_utf8(b) {
            Some(u) => Ok(Some(u)),
            None => Err(LookupError::InvalidUtf8),
        },
    }
}

/// The URL stored under `key`, `None` where the key is absent.
pub fn get_url_using_key(store: &MappingStore, key: &str) -> (r: Result<Option<String>, LookupError>)
    ensures
        r matches Ok(Some(u)) ==> lookup(store@, encode_utf8(key@)) == Some(encode_utf8(u@)),
        r matches Ok(None) ==> lookup(store@, encode_utf8(key@)) == None::<Seq<u8>>,
        r == Err::<Option<String>, LookupError>(LookupError::InvalidUtf8) ==> (lookup(store@, encode_utf8(key@)) matches Some(b) && !valid_utf8(b)),
{
    decode_found(store.get(key.as_bytes()))
}

/// The reply to a resolved lookup: a redirect to a found URL, `NotFound` for
/// an absent key, and `InternalError` for any failure.
pub fn lookup_reply(found: Result<Option<String>, LookupError>) -> (r: Reply)
    ensures
        match found {
            Ok(Some(u)) => r == Reply::Redirect(u),
            Ok(None) => r == Reply::NotFound,
            Err(_) => r == Reply::InternalError,
        },
{
    match found {
        Ok(Some(u)) => Reply::Redirect(u),
        Ok(None) => Reply::NotFound,
        Err(_) => Reply::InternalError,
    }
}

/// Resolves a `/get_url` request: `NotFound` without a key or for an absent
/// key, a redirect to the URL stored under a present key, and
/// `InternalError` where the store fails or the stored URL is not text.
pub fn get_url(store: &MappingStore, key: Option<&str>) -> (r: Reply)
    ensures
        key is None ==> r == Reply::NotFound,
        key matches Some(k) ==> match r {
            Reply::Redirect(u) => lookup(store@, encode_utf8(k@)) == Some(encode_utf8(u@)),
            Reply::NotFound => lookup(store@, encode_utf8(k@)) == None::<Seq<u8>>,
            Reply::InternalError => true,
            _ => false,
        },
{
    match key {
        None => Reply::NotFound,
        Some(k) => lookup_reply(get_url_using_key(store, k)),
    }
}

/// Applies `change` to `key`: stores the URL's encoding, or removes the key.
/// Returns whether the store reported success. Whatever the store reports,
/// no other key changes, and removing an absent key changes nothing.
pub fn set_url_using_key(store: &mut MappingStore, key: &str, change: &UrlChange) -> (r: bool)
    ensures
        r ==> final(store)@ == apply_change(old(store)@, encode_utf8(key@), *change),
        at_most_applied(old(store)@, final(store)@, encode_utf8(key@), *change),
        (*change is Delete && !old(store)@.contains_key(encode_utf8(key@))) ==> final(store)@ == old(store)@,
{
    match change {
        UrlChange::Upsert(url) => store.put(key.as_bytes(), url.as_str().as_bytes()).is_ok(),
        UrlChange::Delete => store.delete(key.as_bytes()).is_ok(),
    }
}

/// The reply to a change: `Done` where it was stored, `BadRequest` where not.
pub fn set_reply(stored: bool) -> (r: Reply)
    ensures
        stored ==> r == Reply::Done,
        !stored ==> r == Reply::BadRequest,
{
    if stored {
        Reply::Done
    } else {
        Reply::BadRequest
    }
}

/// Handles a `/set_url` request: a present URL is stored under the key, an
/// absent one removes the key. `Done` means the change was applied; with
/// either reply no other key changes, and removing an absent key changes
/// nothing.
pub fn set_url(store: &mut MappingStore, key: &str, url: Option<String>) -> (r: Reply)
    ensures
        r == Reply::Done || r == Reply::BadRequest,
        r == Reply::Done ==> final(store)@ == apply_change(old(store)@, encode_utf8(key@), change_of(url)),
        at_most_applied(old(store)@, final(store)@, encode_utf8(key@), change_of(url)),
        (url is None && !old(store)@.contains_key(encode_utf8(key@))) ==> final(store)@ == old(store)@,
{
    let change = UrlChange::from_optional(url);
    set_reply(set_url_using_key(store, key, &change))
}

/// Every key and value of `es` is valid UTF-8.
pub open spec fn all_utf8(es: Seq<(Seq<u8>, Seq<u8>)>) -> bool {
    forall|i: int| 0 <= i < es.len() ==> valid_utf8(#[trigger] es[i].0) && valid_utf8(es[i].1)
}

/// The encodings of a sequence of text pairs.
pub open spec fn text_pairs_bytes(v: Seq<(String, String)>) -> Seq<(Seq<u8>, Seq<u8>)> {
    v.map_values(|p: (String, String)| (encode_utf8(p.0@), encode_utf8(p.1@)))
}

/// Turns the store's listing into text pairs, in the same order: a store
/// failure stays a failure, and a key or value that is not valid UTF-8
/// fails the whole listing.
pub fn decode_listing(found: Result<Vec<(Vec<u8>, Vec<u8>)>, StoreError>) -> (r: Result<Vec<(String, String)>, LookupError>)
    ensures
        found is Err ==> r == Err::<Vec<(String, String)>, LookupError>(LookupError::Store),
        found matches Ok(es) ==> (all_utf8(pairs_view(es@)) <==> r is Ok),
        found matches Ok(es) ==> (!all_utf8(pairs_view(es@)) <==> r == Err::<Vec<(String, String)>, LookupError>(LookupError::InvalidUtf8)),
        found matches Ok(es) ==> (r matches Ok(v) ==> text_pairs_bytes(v@) == pairs_view(es@)),
{
    let es = match found {
        Err(_) => return Err(LookupError::Store),
        Ok(es) => es,
    };
    let ghost pv = pairs_view(es@);
    let mut out: Vec<(String, String)> = Vec::new();
    let mut i: usize = 0;
    while i < es.len()
        invariant
            found == Ok::<Vec<(Vec<u8>, Vec<u8>)>, StoreError>(es),
            pv == pairs_view(es@),
            i <= es@.len(),
            out@.len() == i,
            text_pairs_bytes(out@) == pv.take(i as int),
            all_utf8(pv.take(i as int)),
        decreases es@.len() - i,
    {
        let kb = slice_to_vec(es[i].0.as_slice());
        let vb = slice_to_vec(es[i].1.as_slice());
        assert(kb@ == pv[i as int].0 && vb@ == pv[i as int].1);
        let k = match string_from_utf8(kb) {
            Some(k) => k,
            None => {
                assert(!all_utf8(pv));
                return Err(LookupError::InvalidUtf8);
            },
        };
        let v = match string_from_utf8(vb) {
            Some(v) => v,
            None => {
                assert(!valid_utf8(pv[i as int].1));
                assert(!all_utf8(pv));
                return Err(LookupError::InvalidUtf8);
            },
        };
        let ghost before = out@;
        out.push((k, v));
        assert(text_pairs_bytes(out@) =~= pv.take(i as int + 1)) by {
            assert(out@ == before.push((k, v)));
            assert(text_pairs_bytes(before) == pv.take(i as int));
            assert forall|j: int| 0 <= j < i as int + 1 implies #[trigger] text_pairs_bytes(out@)[j] == pv.take(i as int + 1)[j] by {
                if j < i as int {
                    assert(text_pairs_bytes(out@)[j] == text_pairs_bytes(before)[j]);
                } else {
                    assert(text_pairs_bytes(out@)[j] == (encode_utf8(k@), encode_utf8(v@)));
                }
            }
        }
        assert(all_utf8(pv.take(i as int + 1))) by {
            assert forall|j: int| 0 <= j < i as int + 1 implies valid_utf8(#[trigger] pv.take(i as int + 1)[j].0)
                && valid_utf8(pv.take(i as int + 1)[j].1) by {
                if j < i as int {
                    assert(pv.take(i as int + 1)[j] == pv.take(i as int)[j]);
                }
            }
        }
        i = i + 1;
    }
    assert(pv.take(i as int) =~= pv);
    Ok(out)
}

/// Every key of the table with its URL, each key once, in the store's
/// order. The listing fails as a whole where the store fails or a key or URL
/// is not valid UTF-8.
pub fn get_key_to_url_map(store: &MappingStore) -> (r: Result<Vec<(String, String)>, LookupError>)
    ensures
        r matches Ok(v) ==> lists_exactly(text_pairs_bytes(v@), store@),
        r == Err::<Vec<(String, String)>, LookupError>(LookupError::InvalidUtf8) ==> exists|k: Seq<u8>|
            #[trigger] store@.contains_key(k) && !(valid_utf8(k) && valid_utf8(store@[k])),
{
    let found = store.entries();
    let ghost g = found;
    let r = decode_listing(found);
    proof {
        if let Ok(es) = g {
            let pv = pairs_view(es@);
            if !all_utf8(pv) {
                assert(exists|i: int| 0 <= i < pv.len() && !(valid_utf8(#[trigger] pv[i].0) && valid_utf8(pv[i].1)));
                let i = choose|i: int| 0 <= i < pv.len() && !(valid_utf8(#[trigger] pv[i].0) && valid_utf8(pv[i].1));
                assert(0 <= i < pv.len());
                assert(lookup(store@, pv[i].0) == Some(pv[i].1));
                assert(store@.contains_key(pv[i].0));
            }
        }
    }
    r
}

/// The reply to a listing: the pairs where it succeeded, `InternalError`
/// where it failed.
pub fn list_reply(listed: Result<Vec<(String, String)>, LookupError>) -> (r: Reply)
    ensures
        match listed {
            Ok(v) => r == Reply::Listing(v),
            Err(_) => r == Reply::InternalError,
        },
{
    match listed {
        Ok(v) => Reply::Listing(v),
        Err(_) => Reply::InternalError,
    }
}

/// Handles a `/list_urls` request: every key with its URL, each once, or
/// `InternalError`.
pub fn list_urls(store: &MappingStore) -> (r: Reply)
    ensures
        r is Listing || r is InternalError,
        r matches Reply::Listing(v) ==> lists_exactly(text_pairs_bytes(v@), store@),
{
    list_reply(get_key_to_url_map(store))
}

} // verus!
