//! What the launcher sends to the store's services and how it reads the
//! answers: endpoints, the login page, the user agent, cloud-save listings,
//! and when a session needs refreshing.

use vstd::prelude::*;
use vstd::string::*;
use vstd::utf8::encode_utf8;
use crate::eos::EOS_OVERLAY_APP_ID;
use crate::models::{CloudSaveFile, CloudSaveFileView, OAuthToken, ResponseMetadata};
use crate::paths::concat;
use crate::strs::{contains_seq, has_infix, split_fields, split_chars};
use crate::text::{chars_of, string_of, push_str, str_equal};
use crate::fmt::{dec_of, push_dec};
use crate::codec::hex_digit;

verus! {

pub const OAUTH_HOST: &'static str = "account-public-service-prod03.ol.epicgames.com";
pub const LAUNCHER_HOST: &'static str = "launcher-public-service-prod06.ol.epicgames.com";
pub const ENTITLEMENT_HOST: &'static str = "entitlement-public-service-prod08.ol.epicgames.com";
pub const EULATRACKING_HOST: &'static str = "eulatracking-public-service-prod06.ol.epicgames.com";
pub const CATALOG_HOST: &'static str = "catalog-public-service-prod06.ol.epicgames.com";
pub const ECOMMERCE_HOST: &'static str = "ecommerceintegration-public-service-ecomprod02.ol.epicgames.com";
pub const DATASTORAGE_HOST: &'static str = "datastorage-public-service-liveegs.live.use1a.on.epicgames.com";
pub const LIBRARY_HOST: &'static str = "library-service.live.use1a.on.epicgames.com";

pub const UA_DEFAULT: &'static str = "UELauncher/11.0.1-14907503+++Portal+Release-Live Windows/10.0.19041.1.256.64bit";
pub const UA_EGS: &'static str = "EpicGamesLauncher/14.0.8-22004686+++Portal+Release-Live";

/// The client id the launcher logs in as.
pub const CLIENT_ID: &'static str = "34a02cf8f4414e29b15921876da36f9a";

/// The user agent a title's downloads go out with: the store's own for the
/// overlay, the launcher's for every other title.
pub fn get_ua_for_app(app_name: &str) -> (r: &'static str)
    ensures
        r@ == if app_name@ == EOS_OVERLAY_APP_ID@ { UA_EGS@ } else { UA_DEFAULT@ },
{
    if str_equal(app_name, EOS_OVERLAY_APP_ID) {
        UA_EGS
    } else {
        UA_DEFAULT
    }
}

/// A byte that a URL carries as it is: an ASCII letter or digit, `-`, `.`,
/// `_` or `~`.
pub open spec fn is_unreserved(b: u8) -> bool {
    (48 <= b <= 57) || (65 <= b <= 90) || (97 <= b <= 122) || b == 45 || b == 46 || b == 95 || b == 126
}

/// Percent-encoding of bytes: unreserved bytes as themselves, every other as
/// `%` and two upper-case hexadecimal digits.
pub open spec fn percent_encode(bs: Seq<u8>) -> Seq<char>
    decreases bs.len(),
{
    if bs.len() == 0 {
        seq![]
    } else {
        let b = bs.last();
        percent_encode(bs.drop_last()) + if is_unreserved(b) {
            seq![b as char]
        } else {
            seq!['%', hex_digit(b as int / 16, true), hex_digit(b as int % 16, true)]
        }
    }
}

/// `urlencoding::encode`: percent-encodes the UTF-8 bytes of `s`, leaving
/// ASCII letters, digits and `-`, `.`, `_`, `~` as they are and writing every
/// other byte as `%` with two upper-case hexadecimal digits.
#[verifier::external_body]
pub(crate) fn url_encode(s: &str) -> (r: String)
    ensures
        r@ == percent_encode(s.spec_bytes()),
{
    urlencoding::encode(s).into_owned()
}

/// The login page, with the redirect that hands out an authorization code
/// percent-encoded into it.
pub fn get_auth_url() -> (r: String)
    ensures
        r@ == "https://www.epicgames.com/id/login?redirectUrl="@ + percent_encode(
            encode_utf8("https://www.epicgames.com/id/api/redirect?clientId="@ + CLIENT_ID@ + "&responseType=code"@),
        ),
{
    let a = concat("https://www.epicgames.com/id/api/redirect?clientId=", CLIENT_ID);
    let redirect = concat(a.as_str(), "&responseType=code");
    let enc = url_encode(redirect.as_str());
    concat("https://www.epicgames.com/id/login?redirectUrl=", enc.as_str())
}

/// Starts a text with `a`.
fn text_from(a: &str) -> (r: String)
    ensures
        r@ == a@,
{
    let mut s = String::new();
    push_str(&mut s, a);
    assert(s@ =~= a@);
    s
}

/// The decimal text of a signed number, with a leading `-` where negative.
pub open spec fn signed_dec(v: int) -> Seq<char> {
    if v < 0 {
        seq!['-'] + dec_of((-v) as nat)
    } else {
        dec_of(v as nat)
    }
}

/// The decimal text of `v`.
pub fn i32_text(v: i32) -> (r: String)
    ensures
        r@ == signed_dec(v as int),
{
    let mut out: Vec<char> = Vec::new();
    if v < 0 {
        out.push('-');
        let m: i64 = -(v as i64);
        push_dec(&mut out, m as u64);
    } else {
        push_dec(&mut out, v as u64);
    }
    string_of(out.as_slice())
}

/// Where the account service hands out tokens.
pub fn oauth_token_url() -> (r: String)
    ensures
        r@ == "https://"@ + OAUTH_HOST@ + "/account/api/oauth/token"@,
{
    let mut s = text_from("https://");
    push_str(&mut s, OAUTH_HOST);
    push_str(&mut s, "/account/api/oauth/token");
    s
}

/// Where a game's exchange code is asked for.
pub fn exchange_url() -> (r: String)
    ensures
        r@ == "https://"@ + OAUTH_HOST@ + "/account/api/oauth/exchange"@,
{
    let mut s = text_from("https://");
    push_str(&mut s, OAUTH_HOST);
    push_str(&mut s, "/account/api/oauth/exchange");
    s
}

/// A page of the library; later pages carry the cursor the previous one gave.
pub fn library_url(cursor: Option<&str>) -> (r: String)
    ensures
        r@ == "https://"@ + LIBRARY_HOST@ + "/library/api/public/items?includeMetadata=true"@
            + match cursor {
            Some(c) => "&cursor="@ + c@,
            None => seq![],
        },
{
    let mut s = text_from("https://");
    push_str(&mut s, LIBRARY_HOST);
    push_str(&mut s, "/library/api/public/items?includeMetadata=true");
    match cursor {
        Some(c) => {
            push_str(&mut s, "&cursor=");
            push_str(&mut s, c);
        },
        None => {
            assert(s@ + seq![] =~= s@);
        },
    }
    s
}

/// The cursor of the next page of the library: none where the page gave none
/// or an empty one.
pub fn next_cursor(meta: &ResponseMetadata) -> (r: Option<String>)
    ensures
        match (r, meta.next_cursor) {
            (Some(x), Some(y)) => x@ == y@ && y@.len() > 0,
            (None, Some(y)) => y@.len() == 0,
            (None, None) => true,
            _ => false,
        },
{
    match &meta.next_cursor {
        Some(c) => {
            if c.as_str().is_empty() {
                None
            } else {
                Some(c.clone())
            }
        },
        None => None,
    }
}

/// The titles of an account for a platform.
pub fn assets_url(platform: &str) -> (r: String)
    ensures
        r@ == "https://"@ + LAUNCHER_HOST@ + "/launcher/api/public/assets/"@ + platform@,
{
    let mut s = text_from("https://");
    push_str(&mut s, LAUNCHER_HOST);
    push_str(&mut s, "/launcher/api/public/assets/");
    push_str(&mut s, platform);
    s
}

/// Where the manifest of a build is described.
pub fn asset_manifest_url(platform: &str, namespace: &str, catalog_item_id: &str, app_name: &str, label_name: &str) -> (r: String)
    ensures
        r@ == "https://"@ + LAUNCHER_HOST@ + "/launcher/api/public/assets/v2/platform/"@ + platform@
            + "/namespace/"@ + namespace@ + "/catalogItem/"@ + catalog_item_id@ + "/app/"@ + app_name@
            + "/label/"@ + label_name@,
{
    let mut s = text_from("https://");
    push_str(&mut s, LAUNCHER_HOST);
    push_str(&mut s, "/launcher/api/public/assets/v2/platform/");
    push_str(&mut s, platform);
    push_str(&mut s, "/namespace/");
    push_str(&mut s, namespace);
    push_str(&mut s, "/catalogItem/");
    push_str(&mut s, catalog_item_id);
    push_str(&mut s, "/app/");
    push_str(&mut s, app_name);
    push_str(&mut s, "/label/");
    push_str(&mut s, label_name);
    s
}

/// Where the download ticket of a build is asked for.
pub fn download_ticket_url(platform: &str, namespace: &str, catalog_item_id: &str, app_name: &str) -> (r: String)
    ensures
        r@ == "https://"@ + LAUNCHER_HOST@ + "/launcher/api/public/assets/v2/platform/"@ + platform@
            + "/namespace/"@ + namespace@ + "/catalogItem/"@ + catalog_item_id@ + "/app/"@ + app_name@
            + "/downloadTicket"@,
{
    let mut s = text_from("https://");
    push_str(&mut s, LAUNCHER_HOST);
    push_str(&mut s, "/launcher/api/public/assets/v2/platform/");
    push_str(&mut s, platform);
    push_str(&mut s, "/namespace/");
    push_str(&mut s, namespace);
    push_str(&mut s, "/catalogItem/");
    push_str(&mut s, catalog_item_id);
    push_str(&mut s, "/app/");
    push_str(&mut s, app_name);
    push_str(&mut s, "/downloadTicket");
    s
}

/// Where the launcher's own builds for a platform are described.
pub fn launcher_manifests_url(platform: &str) -> (r: String)
    ensures
        r@ == "https://"@ + LAUNCHER_HOST@ + "/launcher/api/public/assets/v2/platform/"@ + platform@ + "/launcher"@,
{
    let mut s = text_from("https://");
    push_str(&mut s, LAUNCHER_HOST);
    push_str(&mut s, "/launcher/api/public/assets/v2/platform/");
    push_str(&mut s, platform);
    push_str(&mut s, "/launcher");
    s
}

/// The catalog entries of a namespace.
pub fn game_info_url(namespace: &str) -> (r: String)
    ensures
        r@ == "https://"@ + CATALOG_HOST@ + "/catalog/api/shared/namespace/"@ + namespace@ + "/bulk/items"@,
{
    let mut s = text_from("https://");
    push_str(&mut s, CATALOG_HOST);
    push_str(&mut s, "/catalog/api/shared/namespace/");
    push_str(&mut s, namespace);
    push_str(&mut s, "/bulk/items");
    s
}

/// The cloud saves of an account for a title.
pub fn savesync_url(account_id: &str, app_id: &str) -> (r: String)
    ensures
        r@ == "https://"@ + DATASTORAGE_HOST@ + "/api/v1/access/egstore/savesync/"@ + account_id@ + "/"@
            + app_id@ + "/"@,
{
    let mut s = text_from("https://");
    push_str(&mut s, DATASTORAGE_HOST);
    push_str(&mut s, "/api/v1/access/egstore/savesync/");
    push_str(&mut s, account_id);
    push_str(&mut s, "/");
    push_str(&mut s, app_id);
    push_str(&mut s, "/");
    s
}

/// Where a session is ended.
pub fn session_kill_url(access_token: &str) -> (r: String)
    ensures
        r@ == "https://"@ + OAUTH_HOST@ + "/account/api/oauth/sessions/kill/"@ + access_token@,
{
    let mut s = text_from("https://");
    push_str(&mut s, OAUTH_HOST);
    push_str(&mut s, "/account/api/oauth/sessions/kill/");
    push_str(&mut s, access_token);
    s
}

/// Where an ownership token is asked for.
pub fn ownership_token_url(account_id: &str) -> (r: String)
    ensures
        r@ == "https://"@ + ECOMMERCE_HOST@ + "/ecommerceintegration/api/public/platforms/EPIC/identities/"@
            + account_id@ + "/ownershipToken"@,
{
    let mut s = text_from("https://");
    push_str(&mut s, ECOMMERCE_HOST);
    push_str(&mut s, "/ecommerceintegration/api/public/platforms/EPIC/identities/");
    push_str(&mut s, account_id);
    push_str(&mut s, "/ownershipToken");
    s
}

/// The item an ownership token is asked for: namespace and catalog item
/// joined by a colon.
pub fn ns_catalog_item(namespace: &str, catalog_item_id: &str) -> (r: String)
    ensures
        r@ == namespace@ + ":"@ + catalog_item_id@,
{
    let mut s = text_from(namespace);
    push_str(&mut s, ":");
    push_str(&mut s, catalog_item_id);
    s
}

/// The entitlements of the logged-in account.
pub fn entitlements_url() -> (r: String)
    ensures
        r@ == "https://"@ + ENTITLEMENT_HOST@ + "/entitlement/api/public/entitlements"@,
{
    let mut s = text_from("https://");
    push_str(&mut s, ENTITLEMENT_HOST);
    push_str(&mut s, "/entitlement/api/public/entitlements");
    s
}

/// Whether an account has accepted an agreement.
pub fn eula_status_url(eula_id: &str, account_id: &str) -> (r: String)
    ensures
        r@ == "https://"@ + EULATRACKING_HOST@ + "/eulatracking/api/public/agreements/"@ + eula_id@
            + "/account/"@ + account_id@,
{
    let mut s = text_from("https://");
    push_str(&mut s, EULATRACKING_HOST);
    push_str(&mut s, "/eulatracking/api/public/agreements/");
    push_str(&mut s, eula_id);
    push_str(&mut s, "/account/");
    push_str(&mut s, account_id);
    s
}

/// Where a version of an agreement is accepted.
pub fn eula_accept_url(eula_id: &str, version: i32, account_id: &str) -> (r: String)
    ensures
        r@ == "https://"@ + EULATRACKING_HOST@ + "/eulatracking/api/public/agreements/"@ + eula_id@
            + "/version/"@ + signed_dec(version as int) + "/account/"@ + account_id@ + "/accept"@,
{
    let v = i32_text(version);
    let mut s = text_from("https://");
    push_str(&mut s, EULATRACKING_HOST);
    push_str(&mut s, "/eulatracking/api/public/agreements/");
    push_str(&mut s, eula_id);
    push_str(&mut s, "/version/");
    push_str(&mut s, v.as_str());
    push_str(&mut s, "/account/");
    push_str(&mut s, account_id);
    push_str(&mut s, "/accept");
    s
}

/// The external accounts linked to an account.
pub fn external_auths_url(account_id: &str) -> (r: String)
    ensures
        r@ == "https://"@ + OAUTH_HOST@ + "/account/api/public/account/"@ + account_id@ + "/externalAuths"@,
{
    let mut s = text_from("https://");
    push_str(&mut s, OAUTH_HOST);
    push_str(&mut s, "/account/api/public/account/");
    push_str(&mut s, account_id);
    push_str(&mut s, "/externalAuths");
    s
}

/// Whether an agreement still waits for acceptance: not when the service
/// does not know it, nor when it says it is accepted.
pub fn eula_pending(not_found: bool, accepted: Option<bool>) -> (r: bool)
    ensures
        r == (!not_found && accepted != Some(true)),
{
    if not_found {
        false
    } else {
        match accepted {
            Some(true) => false,
            _ => true,
        }
    }
}

/// A cloud-save listing entry read as a save manifest: entries whose path
/// mentions `.manifest`; a path of at least five `/`-separated parts gives
/// the title (third part) and the manifest's name (fifth part), and the path
/// becomes the file name; otherwise the entry is kept, with the path as file
/// name where it had none.
pub open spec fn cloud_manifest_entry(path: Seq<char>, f: CloudSaveFileView) -> CloudSaveFileView {
    let parts = split_fields(path, '/');
    if parts.len() >= 5 {
        CloudSaveFileView { app_name: parts[2], file_name: path, manifest_name: parts[4], ..f }
    } else if f.file_name.len() == 0 {
        CloudSaveFileView { file_name: path, ..f }
    } else {
        f
    }
}

/// The save manifests of a listing, in listing order.
pub open spec fn spec_cloud_manifests(entries: Seq<(Seq<char>, CloudSaveFileView)>) -> Seq<CloudSaveFileView>
    decreases entries.len(),
{
    if entries.len() == 0 {
        seq![]
    } else {
        let rest = spec_cloud_manifests(entries.drop_last());
        let (path, f) = entries.last();
        if contains_seq(path, ".manifest"@) {
            rest.push(cloud_manifest_entry(path, f))
        } else {
            rest
        }
    }
}

pub open spec fn entry_views(entries: Seq<(String, CloudSaveFile)>) -> Seq<(Seq<char>, CloudSaveFileView)> {
    entries.map_values(|e: (String, CloudSaveFile)| (e.0@, e.1@))
}

pub open spec fn file_views(files: Seq<CloudSaveFile>) -> Seq<CloudSaveFileView> {
    files.map_values(|f: CloudSaveFile| f@)
}

fn manifest_entry(path: &String, f: &CloudSaveFile) -> (r: CloudSaveFile)
    ensures
        r@ == cloud_manifest_entry(path@, f@),
{
    let pc = chars_of(path.as_str());
    let parts = split_chars(pc.as_slice(), '/');
    let ghost ps = parts@.map_values(|x: Vec<char>| x@);
    let mut out = f.copy();
    if parts.len() >= 5 {
        out.app_name = string_of(parts[2].as_slice());
        out.file_name = path.clone();
        out.manifest_name = string_of(parts[4].as_slice());
        assert(ps[2] == parts@[2]@);
        assert(ps[4] == parts@[4]@);
    } else if f.file_name.as_str().is_empty() {
        out.file_name = path.clone();
    }
    out
}

/// The save manifests among the files of a cloud-save listing.
pub fn select_cloud_manifests(entries: &Vec<(String, CloudSaveFile)>) -> (r: Vec<CloudSaveFile>)
    ensures
        file_views(r@) == spec_cloud_manifests(entry_views(entries@)),
{
    let ghost es = entry_views(entries@);
    let pat = chars_of(".manifest");
    let mut out: Vec<CloudSaveFile> = Vec::new();
    let mut i: usize = 0;
    assert(es.take(0) =~= seq![]);
    while i < entries.len()
        invariant
            i <= entries@.len(),
            es == entry_views(entries@),
            pat@ == ".manifest"@,
            file_views(out@) == spec_cloud_manifests(es.take(i as int)),
        decreases entries@.len() - i,
    {
        assert(es.take(i + 1).drop_last() =~= es.take(i as int));
        assert(es.take(i + 1).last() == (entries@[i as int].0@, entries@[i as int].1@));
        let ghost before = file_views(out@);
        let path_chars = chars_of(entries[i].0.as_str());
        if has_infix(path_chars.as_slice(), pat.as_slice()) {
            let e = manifest_entry(&entries[i].0, &entries[i].1);
            out.push(e);
            assert(file_views(out@) =~= before.push(e@));
        }
        i += 1;
    }
    assert(es.take(entries@.len() as int) =~= es);
    out
}

/// `a` comes after `b`.
pub open spec fn instant_after(a: (i64, u32), b: (i64, u32)) -> bool {
    a.0 > b.0 || (a.0 == b.0 && a.1 > b.1)
}

pub fn is_after(a: (i64, u32), b: (i64, u32)) -> (r: bool)
    ensures
        r == instant_after(a, b),
{
    a.0 > b.0 || (a.0 == b.0 && a.1 > b.1)
}

/// The instant an RFC 3339 date and time names, as `DateTime::parse_from_rfc3339`
/// reads it; `None` where it does not parse. It depends on the text alone.
pub uninterp spec fn rfc3339_instant(s: Seq<char>) -> Option<(i64, u32)>;

/// `chrono::DateTime::parse_from_rfc3339`, taken to seconds since the epoch
/// (`timestamp`) and nanoseconds (`timestamp_subsec_nanos`). Claims only that
/// the result is the instant the text names, named `rfc3339_instant`; how a
/// text is read is left to chrono.
#[verifier::external_body]
pub(crate) fn parse_rfc3339(s: &str) -> (r: Option<(i64, u32)>)
    ensures
        r == rfc3339_instant(s@),
{
    match chrono::DateTime::parse_from_rfc3339(s) {
        Ok(dt) => Some((dt.timestamp(), dt.timestamp_subsec_nanos())),
        Err(_) => None,
    }
}

/// What keeping a session alive asks for.
#[derive(Debug, Clone, PartialEq, Eq)]
pub enum RefreshDecision {
    /// The token holds for more than five minutes yet.
    Fresh,
    /// Refresh with this refresh token.
    Refresh(String),
    NotLoggedIn,
    NoRefreshToken,
}

/// The decision for a session whose token expires at `expires` (`None` where
/// its expiry did not parse), at `now`: a token that outlives `now` by more
/// than five minutes is kept; any other is refreshed with its refresh token.
pub open spec fn spec_refresh(token: Option<OAuthToken>, expires: Option<(i64, u32)>, now: (i64, u32)) -> RefreshDecision {
    match token {
        None => RefreshDecision::NotLoggedIn,
        Some(t) => {
            if expires matches Some(e) && (e.0 > now.0 + 300 || (e.0 == now.0 + 300 && e.1 > now.1)) {
                RefreshDecision::Fresh
            } else {
                match t.refresh_token {
                    Some(rt) => RefreshDecision::Refresh(rt),
                    None => RefreshDecision::NoRefreshToken,
                }
            }
        },
    }
}

pub open spec fn refresh_matches(d: RefreshDecision, s: RefreshDecision) -> bool {
    match (d, s) {
        (RefreshDecision::Refresh(a), RefreshDecision::Refresh(b)) => a@ == b@,
        (RefreshDecision::Fresh, RefreshDecision::Fresh) => true,
        (RefreshDecision::NotLoggedIn, RefreshDecision::NotLoggedIn) => true,
        (RefreshDecision::NoRefreshToken, RefreshDecision::NoRefreshToken) => true,
        _ => false,
    }
}

/// Decides, given the parsed expiry of the token.
pub fn refresh_for_expiry(token: &Option<OAuthToken>, expires: Option<(i64, u32)>, now: (i64, u32)) -> (r: RefreshDecision)
    ensures
        refresh_matches(r, spec_refresh(*token, expires, now)),
{
    match token {
        None => RefreshDecision::NotLoggedIn,
        Some(t) => {
            let fresh = match expires {
                Some(e) => {
                    let limit: i128 = now.0 as i128 + 300;
                    (e.0 as i128) > limit || ((e.0 as i128) == limit && e.1 > now.1)
                },
                None => false,
            };
            if fresh {
                RefreshDecision::Fresh
            } else {
                match &t.refresh_token {
                    Some(rt) => RefreshDecision::Refresh(rt.clone()),
                    None => RefreshDecision::NoRefreshToken,
                }
            }
        },
    }
}

/// Decides whether the session needs refreshing at `now`, reading the token's
/// expiry.
pub fn refresh_decision(token: &Option<OAuthToken>, now: (i64, u32)) -> (r: RefreshDecision)
    ensures
        refresh_matches(r, spec_refresh(*token, match token {
            Some(t) => rfc3339_instant(t.expires_at@),
            None => None,
        }, now)),
{
    let expires = match token {
        Some(t) => parse_rfc3339(t.expires_at.as_str()),
        None => None,
    };
    refresh_for_expiry(token, expires, now)
}

} // verus!
