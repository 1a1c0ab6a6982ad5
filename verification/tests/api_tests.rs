use legendary::api::{
    asset_manifest_url, assets_url, download_ticket_url, entitlements_url, eula_accept_url, eula_pending,
    eula_status_url, exchange_url, external_auths_url, game_info_url, get_auth_url, get_ua_for_app, i32_text,
    is_after, launcher_manifests_url, library_url, next_cursor, ns_catalog_item, oauth_token_url,
    ownership_token_url, refresh_decision, refresh_for_expiry, savesync_url,
    select_cloud_manifests, session_kill_url, RefreshDecision, UA_DEFAULT, UA_EGS,
};
use legendary::eos::EOS_OVERLAY_APP_ID;
use legendary::models::{CloudSaveFile, OAuthToken, ResponseMetadata};

#[test]
fn user_agent_per_title() {
    assert_eq!(get_ua_for_app(EOS_OVERLAY_APP_ID), UA_EGS);
    assert_eq!(get_ua_for_app("Anemone"), UA_DEFAULT);
    assert_eq!(get_ua_for_app(""), UA_DEFAULT);
}

#[test]
fn auth_url_is_encoded() {
    assert_eq!(
        get_auth_url(),
        "https://www.epicgames.com/id/login?redirectUrl=https%3A%2F%2Fwww.epicgames.com%2Fid%2Fapi%2Fredirect%3FclientId%3D34a02cf8f4414e29b15921876da36f9a%26responseType%3Dcode"
    );
}

#[test]
fn endpoint_urls() {
    assert_eq!(oauth_token_url(), "https://account-public-service-prod03.ol.epicgames.com/account/api/oauth/token");
    assert_eq!(exchange_url(), "https://account-public-service-prod03.ol.epicgames.com/account/api/oauth/exchange");
    assert_eq!(
        library_url(None),
        "https://library-service.live.use1a.on.epicgames.com/library/api/public/items?includeMetadata=true"
    );
    assert_eq!(
        library_url(Some("abc")),
        "https://library-service.live.use1a.on.epicgames.com/library/api/public/items?includeMetadata=true&cursor=abc"
    );
    assert_eq!(assets_url("Windows"), "https://launcher-public-service-prod06.ol.epicgames.com/launcher/api/public/assets/Windows");
    assert_eq!(
        asset_manifest_url("Windows", "ns", "cat", "app", "Live"),
        "https://launcher-public-service-prod06.ol.epicgames.com/launcher/api/public/assets/v2/platform/Windows/namespace/ns/catalogItem/cat/app/app/label/Live"
    );
    assert_eq!(
        download_ticket_url("Windows", "ns", "cat", "app"),
        "https://launcher-public-service-prod06.ol.epicgames.com/launcher/api/public/assets/v2/platform/Windows/namespace/ns/catalogItem/cat/app/app/downloadTicket"
    );
    assert_eq!(
        launcher_manifests_url("Mac"),
        "https://launcher-public-service-prod06.ol.epicgames.com/launcher/api/public/assets/v2/platform/Mac/launcher"
    );
    assert_eq!(
        game_info_url("ns"),
        "https://catalog-public-service-prod06.ol.epicgames.com/catalog/api/shared/namespace/ns/bulk/items"
    );
    assert_eq!(
        savesync_url("acc", "app"),
        "https://datastorage-public-service-liveegs.live.use1a.on.epicgames.com/api/v1/access/egstore/savesync/acc/app/"
    );
    assert_eq!(
        session_kill_url("tok"),
        "https://account-public-service-prod03.ol.epicgames.com/account/api/oauth/sessions/kill/tok"
    );
    assert_eq!(
        ownership_token_url("acc"),
        "https://ecommerceintegration-public-service-ecomprod02.ol.epicgames.com/ecommerceintegration/api/public/platforms/EPIC/identities/acc/ownershipToken"
    );
    assert_eq!(ns_catalog_item("ns", "cat"), "ns:cat");
    assert_eq!(entitlements_url(), "https://entitlement-public-service-prod08.ol.epicgames.com/entitlement/api/public/entitlements");
    assert_eq!(
        eula_status_url("eula", "acc"),
        "https://eulatracking-public-service-prod06.ol.epicgames.com/eulatracking/api/public/agreements/eula/account/acc"
    );
    assert_eq!(
        eula_accept_url("eula", 3, "acc"),
        "https://eulatracking-public-service-prod06.ol.epicgames.com/eulatracking/api/public/agreements/eula/version/3/account/acc/accept"
    );
    assert_eq!(
        external_auths_url("acc"),
        "https://account-public-service-prod03.ol.epicgames.com/account/api/public/account/acc/externalAuths"
    );
}

#[test]
fn signed_numbers() {
    assert_eq!(i32_text(0), "0");
    assert_eq!(i32_text(-17), "-17");
    assert_eq!(i32_text(i32::MIN), "-2147483648");
    assert_eq!(i32_text(i32::MAX), "2147483647");
}

#[test]
fn cursor_paging() {
    assert_eq!(next_cursor(&ResponseMetadata { next_cursor: Some("c2".to_string()) }), Some("c2".to_string()));
    assert_eq!(next_cursor(&ResponseMetadata { next_cursor: Some(String::new()) }), None);
    assert_eq!(next_cursor(&ResponseMetadata { next_cursor: None }), None);
}

#[test]
fn eula_states() {
    assert!(!eula_pending(true, None));
    assert!(!eula_pending(false, Some(true)));
    assert!(eula_pending(false, Some(false)));
    assert!(eula_pending(false, None));
}

fn file(name: &str) -> CloudSaveFile {
    CloudSaveFile {
        app_name: String::new(),
        file_name: name.to_string(),
        manifest_name: String::new(),
        hash: "h".to_string(),
        length: 3,
        last_modified: Some("2024-01-01T00:00:00Z".to_string()),
        read_link: None,
        write_link: None,
    }
}

#[test]
fn cloud_manifests_selected() {
    let entries = vec![
        ("acc/savesync/App/manifests/2024.01.01-00.00.00.manifest".to_string(), file("")),
        ("acc/savesync/App/ChunksV4/00/x.chunk".to_string(), file("")),
        ("short.manifest".to_string(), file("")),
        ("other.manifest".to_string(), file("kept")),
    ];
    let out = select_cloud_manifests(&entries);
    assert_eq!(out.len(), 3);
    assert_eq!(out[0].app_name, "App");
    assert_eq!(out[0].file_name, "acc/savesync/App/manifests/2024.01.01-00.00.00.manifest");
    assert_eq!(out[0].manifest_name, "2024.01.01-00.00.00.manifest");
    assert_eq!(out[0].hash, "h");
    assert_eq!(out[1].file_name, "short.manifest");
    assert_eq!(out[1].app_name, "");
    assert_eq!(out[2].file_name, "kept");
}

fn token(expires_at: &str, refresh: Option<&str>) -> OAuthToken {
    OAuthToken {
        access_token: "a".to_string(),
        expires_in: 3600,
        expires_at: expires_at.to_string(),
        token_type: "bearer".to_string(),
        refresh_token: refresh.map(|s| s.to_string()),
        refresh_expires: None,
        refresh_expires_at: None,
        account_id: "acc".to_string(),
        client_id: "cli".to_string(),
        internal_client: true,
        client_service: "svc".to_string(),
        display_name: Some("User".to_string()),
        app: "app".to_string(),
        in_app_id: "in".to_string(),
        device_id: "dev".to_string(),
    }
}

#[test]
fn instant_order() {
    assert!(is_after((2, 0), (1, 999)));
    assert!(is_after((1, 5), (1, 4)));
    assert!(!is_after((1, 4), (1, 4)));
}

#[test]
fn session_refresh_rules() {
    let now = (1672531200i64, 0u32);
    assert_eq!(refresh_decision(&None, now), RefreshDecision::NotLoggedIn);
    let fresh = token("2023-01-01T01:00:00Z", Some("r"));
    assert_eq!(refresh_decision(&Some(fresh), now), RefreshDecision::Fresh);
    let soon = token("2023-01-01T00:04:00Z", Some("r"));
    assert_eq!(refresh_decision(&Some(soon), now), RefreshDecision::Refresh("r".to_string()));
    let exact = token("2023-01-01T00:05:00Z", None);
    assert_eq!(refresh_decision(&Some(exact), now), RefreshDecision::NoRefreshToken);
    let bad = token("not a date", Some("r2"));
    assert_eq!(refresh_decision(&Some(bad.clone()), now), RefreshDecision::Refresh("r2".to_string()));
    assert_eq!(refresh_for_expiry(&Some(bad), Some((now.0 + 300, 1)), now), RefreshDecision::Fresh);
}
