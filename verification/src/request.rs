//! Builders for the two outbound requests the service makes.
//!
//! The news relay forwards the caller's key to a fixed internal URL and is
//! never signed.  The asset relay signs a timestamp-bearing parameter set,
//! appends the signature as a query parameter, and carries the caller's API
//! key in a header; the secret key is used only as signer input and appears
//! nowhere in the outbound request.

use vstd::prelude::*;
use vstd::pervasive::unreached;
use crate::ordering::{PairView, pair_views, pair_order};
use crate::decimal::{dec_int, i64_dec};
use crate::signer::{SigningParams, spec_sign, spec_insert, sign, lemma_spec_insert_missing};

verus! {

/// An outbound HTTP request, described by plain values: the method, the
/// full URL (query string included), the headers, and the fields of the
/// JSON object sent as the body.
pub struct OutboundRequest {
    pub method: String,
    pub url: String,
    pub headers: Vec<(String, String)>,
    pub body_fields: Vec<(String, String)>,
}

#[verifier::external_type_specification]
#[verifier::external_body]
pub struct ExUrlencodedError(serde_urlencoded::ser::Error);

/// The `application/x-www-form-urlencoded` rendering of a pair sequence,
/// in the order given.
pub uninterp spec fn urlencoded_of(pairs: Seq<PairView>) -> Seq<char>;

/// Relies on `serde_urlencoded::to_string`: a sequence of string pairs is a
/// supported input, serialized as percent-encoded `key=value` pairs joined
/// with `&` in the order given — a function of the pairs alone.  Its only
/// error cases are unsupported input shapes and non-UTF-8 byte values, so
/// on string pairs it always succeeds.
#[verifier::external_body]
fn url_encode_pairs(pairs: &Vec<(String, String)>) -> (r: Result<
    String,
    serde_urlencoded::ser::Error,
>)
    ensures
        r is Ok,
        r matches Ok(s) ==> s@ == urlencoded_of(pair_views(pairs@)),
{
    serde_urlencoded::to_string(pairs)
}

/// Relies on `chrono::Utc::now().timestamp_millis()` for the current time
/// as milliseconds since the Unix epoch.  Nothing is assumed of the value.
#[verifier::external_body]
fn now_millis() -> i64 {
    chrono::Utc::now().timestamp_millis()
}

/// What the news relay sends: the caller's key forwarded as-is to the fixed
/// internal URL, with no extra headers and no signature.
pub open spec fn is_news_request(r: OutboundRequest, api_key: Seq<char>) -> bool {
    &&& r.method@ == "POST"@
    &&& r.url@ == "http://localhost:1989/v1/info/news"@
    &&& pair_views(r.headers@) == Seq::<PairView>::empty()
    &&& pair_views(r.body_fields@) == seq![("overmindApiKey"@, api_key)]
}

/// Builds the news relay request.  It does not invoke the signer and, as
/// `lemma_news_request_unsigned` states, carries no signature anywhere.
pub fn build_news_request(api_key: &str) -> (r: OutboundRequest)
    ensures
        is_news_request(r, api_key@),
{
    let mut body_fields: Vec<(String, String)> = Vec::new();
    body_fields.push(("overmindApiKey".to_owned(), api_key.to_owned()));
    let r = OutboundRequest {
        method: "POST".to_owned(),
        url: "http://localhost:1989/v1/info/news".to_owned(),
        headers: Vec::new(),
        body_fields,
    };
    proof {
        assert(pair_views(r.headers@) =~= Seq::<PairView>::empty());
        assert(pair_views(r.body_fields@) =~= seq![("overmindApiKey"@, api_key@)]);
    }
    r
}

/// A news request carries no signature: no header at all, no body field
/// named `signature`, and no query string in its URL.
pub proof fn lemma_news_request_unsigned(r: OutboundRequest, api_key: Seq<char>)
    requires
        is_news_request(r, api_key),
    ensures
        pair_views(r.headers@).len() == 0,
        forall|i: int| 0 <= i < pair_views(r.body_fields@).len()
            ==> (#[trigger] pair_views(r.body_fields@)[i]).0 != "signature"@,
        forall|i: int| 0 <= i < r.url@.len() ==> r.url@[i] != '?',
{
    reveal_strlit("overmindApiKey");
    reveal_strlit("signature");
    reveal_strlit("http://localhost:1989/v1/info/news");
    assert(pair_views(r.body_fields@)[0].0 == "overmindApiKey"@);
    assert("overmindApiKey"@.len() != "signature"@.len());
}

/// The parameters that get signed for an asset query: the millisecond
/// timestamp and the fixed valuation flag.
pub open spec fn asset_params(ts: int) -> Seq<PairView> {
    seq![("timestamp"@, dec_int(ts)), ("needBtcValuation"@, "true"@)]
}

/// The signed parameter set: the base parameters with the signature bound
/// as one more parameter.
pub open spec fn signed_asset_params(secret: Seq<char>, ts: int) -> Seq<PairView> {
    asset_params(ts).push(("signature"@, spec_sign(secret, asset_params(ts))))
}

/// The asset query URL: the fixed endpoint with the signed parameters,
/// canonically ordered, as its query string.
pub open spec fn asset_url(secret: Seq<char>, ts: int) -> Seq<char> {
    "https://api3.binance.com/sapi/v3/asset/getUserAsset?"@ + urlencoded_of(
        signed_asset_params(secret, ts).sort_by(pair_order()),
    )
}

/// What the asset relay sends: the signed query against the fixed endpoint,
/// the caller's API key as the exchange's key header and as the only body
/// field.  The secret never appears: it is signer input only.
pub open spec fn is_asset_request(
    r: OutboundRequest,
    api_key: Seq<char>,
    secret: Seq<char>,
    ts: int,
) -> bool {
    &&& r.method@ == "POST"@
    &&& r.url@ == asset_url(secret, ts)
    &&& pair_views(r.headers@) == seq![("X-MBX-APIKEY"@, api_key)]
    &&& pair_views(r.body_fields@) == seq![("apiKey"@, api_key)]
}

/// Builds the asset relay request for a given timestamp.
pub fn build_asset_request(api_key: &str, api_secret: &str, timestamp_millis: i64) -> (r:
    OutboundRequest)
    ensures
        is_asset_request(r, api_key@, api_secret@, timestamp_millis as int),
{
    let ghost ts: int = timestamp_millis as int;
    let mut params = SigningParams::new();
    params.insert("timestamp".to_owned(), i64_dec(timestamp_millis));
    proof {
        lemma_spec_insert_missing(Seq::<PairView>::empty(), "timestamp"@, dec_int(ts));
        assert(params@ =~= seq![("timestamp"@, dec_int(ts))]);
    }
    params.insert("needBtcValuation".to_owned(), "true".to_owned());
    proof {
        reveal_strlit("timestamp");
        reveal_strlit("needBtcValuation");
        reveal_strlit("signature");
        assert("timestamp"@.len() != "needBtcValuation"@.len());
        assert forall|j: int| 0 <= j < seq![("timestamp"@, dec_int(ts))].len()
            implies (#[trigger] seq![("timestamp"@, dec_int(ts))][j]).0 != "needBtcValuation"@ by {
            assert(seq![("timestamp"@, dec_int(ts))][j].0 == "timestamp"@);
        }
        lemma_spec_insert_missing(seq![("timestamp"@, dec_int(ts))], "needBtcValuation"@,
            "true"@);
        assert(params@ =~= asset_params(ts));
    }
    let signature = sign(api_secret, &params);
    params.insert("signature".to_owned(), signature);
    proof {
        assert("timestamp"@[0] == 't' && "signature"@[0] == 's');
        assert("timestamp"@ != "signature"@);
        assert("needBtcValuation"@.len() != "signature"@.len());
        assert forall|j: int| 0 <= j < asset_params(ts).len()
            implies (#[trigger] asset_params(ts)[j]).0 != "signature"@ by {
            if j == 0 {
                assert(asset_params(ts)[0].0 == "timestamp"@);
            } else {
                assert(asset_params(ts)[1].0 == "needBtcValuation"@);
            }
        }
        lemma_spec_insert_missing(asset_params(ts), "signature"@, spec_sign(api_secret@,
            asset_params(ts)));
        assert(params@ == signed_asset_params(api_secret@, ts));
    }
    let sorted = params.canonical_pairs();
    let query = match url_encode_pairs(&sorted) {
        Ok(q) => q,
        Err(_) => unreached(),
    };
    let mut url = "https://api3.binance.com/sapi/v3/asset/getUserAsset?".to_owned();
    url.append(query.as_str());
    let mut headers: Vec<(String, String)> = Vec::new();
    headers.push(("X-MBX-APIKEY".to_owned(), api_key.to_owned()));
    let mut body_fields: Vec<(String, String)> = Vec::new();
    body_fields.push(("apiKey".to_owned(), api_key.to_owned()));
    let r = OutboundRequest { method: "POST".to_owned(), url, headers, body_fields };
    proof {
        assert(pair_views(r.headers@) =~= seq![("X-MBX-APIKEY"@, api_key@)]);
        assert(pair_views(r.body_fields@) =~= seq![("apiKey"@, api_key@)]);
    }
    r
}

/// Builds the asset relay request for the present moment: the timestamp is
/// read from the clock, so only its existence is promised.
pub fn signed_asset_request(api_key: &str, api_secret: &str) -> (r: OutboundRequest)
    ensures
        exists|ts: int| is_asset_request(r, api_key@, api_secret@, ts),
{
    let timestamp_millis = now_millis();
    let r = build_asset_request(api_key, api_secret, timestamp_millis);
    proof {
        assert(is_asset_request(r, api_key@, api_secret@, timestamp_millis as int));
    }
    r
}

} // verus!

