//! What the embedded web UI server answers: which asset a path names, of
//! which media type it is, and where a run's events are.
use vstd::prelude::*;
use vstd::string::*;

use crate::text::{from_chars, same, to_chars};

verus! {

/// The media type that `mime_guess` gives a path.
pub uninterp spec fn media_type(path: Seq<char>) -> Seq<char>;

/// `mime_guess::from_path`, then `MimeGuess::first_or_octet_stream`: the media
/// type of the path's extension, as text. It is named `media_type`.
#[verifier::external_body]
pub(crate) fn guess_type(path: &str) -> (r: String)
    ensures
        r@ == media_type(path@),
{
    mime_guess::from_path(path).first_or_octet_stream().to_string()
}

/// The text without slashes at its start.
pub open spec fn without_slashes(s: Seq<char>) -> Seq<char>
    decreases s.len(),
{
    if s.len() > 0 && s[0] == '/' {
        without_slashes(s.drop_first())
    } else {
        s
    }
}

/// The asset that a request path names: the path without the slashes at its
/// start, or the shell page.
pub open spec fn asset_name(path: Seq<char>) -> Seq<char> {
    if without_slashes(path).len() == 0 {
        "index.html"@
    } else {
        without_slashes(path)
    }
}

/// The asset that a request path names.
pub fn asset_path(path: &str) -> (r: String)
    ensures
        r@ == asset_name(path@),
{
    let cs = to_chars(path);
    let mut lo: usize = 0;
    assert(cs@.subrange(0, cs@.len() as int) =~= cs@);
    while lo < cs.len() && cs[lo] == '/'
        invariant
            lo <= cs@.len(),
            cs@ == path@,
            without_slashes(path@) == without_slashes(
                cs@.subrange(lo as int, cs@.len() as int),
            ),
        decreases cs@.len() - lo,
    {
        assert(cs@.subrange(lo as int, cs@.len() as int).drop_first() =~= cs@.subrange(
            lo + 1,
            cs@.len() as int,
        ));
        lo = lo + 1;
    }
    if lo == cs.len() {
        "index.html".to_string()
    } else {
        from_chars(&cs, lo, cs.len())
    }
}

/// The answer to a request for an asset.
#[derive(Debug, PartialEq)]
pub enum AssetReply {
    /// Send this asset as this media type.
    Asset { file: String, media_type: String },
    NotFound,
}

/// Answer a request for an asset, given whether the asset it names and the
/// shell page are there. A missing asset falls back to the shell page, so
/// that client-side routes resolve to it; the media type is that of the name
/// that was asked for.
pub fn asset_reply(path: &str, has_asset: bool, has_index: bool) -> (r: AssetReply)
    ensures
        match r {
            AssetReply::Asset { file, media_type: kind } => {
                &&& has_asset || has_index
                &&& file@ == if has_asset {
                    asset_name(path@)
                } else {
                    "index.html"@
                }
                &&& kind@ == media_type(asset_name(path@))
            },
            AssetReply::NotFound => !has_asset && !has_index,
        },
{
    let name = asset_path(path);
    if has_asset {
        let kind = guess_type(name.as_str());
        AssetReply::Asset { file: name, media_type: kind }
    } else if has_index {
        let kind = guess_type(name.as_str());
        AssetReply::Asset { file: "index.html".to_string(), media_type: kind }
    } else {
        AssetReply::NotFound
    }
}

/// The address of a run's events: `wss` for a page served over `https:`, else
/// `ws`, on the page's own host.
pub open spec fn events_address(
    protocol: Seq<char>,
    host: Seq<char>,
    run_id: Seq<char>,
) -> Seq<char> {
    (if protocol == "https:"@ {
        "wss"@
    } else {
        "ws"@
    }) + "://"@ + host + "/api/runs/"@ + run_id + "/events"@
}

/// Builds the events URL for a run from the page's protocol and host.
pub fn events_url(protocol: &str, host: &str, run_id: &str) -> (r: String)
    ensures
        r@ == events_address(protocol@, host@, run_id@),
{
    let scheme: &str = if same(protocol, "https:") {
        "wss"
    } else {
        "ws"
    };
    scheme.to_string().concat("://").concat(host).concat("/api/runs/").concat(run_id).concat(
        "/events",
    )
}

} // verus!
