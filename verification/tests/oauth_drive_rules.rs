use locked_calendar::drive::{
    configured_file_id, drive_file_result, drive_media_url, drive_metadata_url, drive_search_url, drive_upload_url,
    escape_quotes, etag_or_unknown, first_drive_step, pull_outcome, push_outcome, DriveFileStep,
};
use locked_calendar::errors::DomainError;
use locked_calendar::oauth::{
    authorization_url, callback_code_and_state, callback_path, callback_query, check_oauth_state, csrf_from_bytes,
    http_failure, pkce_from_bytes, pkce_pair, redirect_uri, tokens_from_exchange,
};

fn sync_message(e: DomainError) -> String {
    match e {
        DomainError::Sync(m) => m,
        other => panic!("expected a sync error, got {:?}", other),
    }
}

#[test]
fn redirect_is_local_callback() {
    assert_eq!(redirect_uri(), "http://127.0.0.1:8765/callback");
}

#[test]
fn pkce_matches_rfc_7636_example() {
    let octets: [u8; 32] = [
        116, 24, 223, 180, 151, 153, 224, 37, 79, 250, 96, 125, 216, 173, 187, 186, 22, 212, 37, 77, 105, 214, 191,
        240, 91, 88, 5, 88, 83, 132, 141, 121,
    ];
    let (verifier, challenge) = pkce_from_bytes(&octets);
    assert_eq!(verifier, "dBjftJeZ4CVP-mB92K27uhbUJU1p1r_wW1gFWFOEjXk");
    assert_eq!(challenge, "E9Melhoa2OwvFrEMTJguCHaoeK1t8URWbuGJSstw-cM");
}

#[test]
fn fresh_pkce_verifier_has_43_characters() {
    let (v, c) = pkce_pair();
    assert_eq!(v.len(), 43);
    assert_eq!(c.len(), 43);
}

#[test]
fn csrf_state_is_unpadded_hex() {
    assert_eq!(csrf_from_bytes(&[0x0f, 0xa0, 0x01, 0xff]), "fa01ff");
}

#[test]
fn consent_url_encodes_every_part() {
    let url = authorization_url("id 1", "ab/c", "x+y");
    assert_eq!(
        url,
        "https://accounts.google.com/o/oauth2/v2/auth?response_type=code&client_id=id%201&redirect_uri=http%3A%2F%2F127.0.0.1%3A8765%2Fcallback&scope=https%3A%2F%2Fwww.googleapis.com%2Fauth%2Fdrive.file&state=ab%2Fc&code_challenge=x%2By&code_challenge_method=S256"
    );
}

#[test]
fn callback_request_gives_code_and_state() {
    let request = "GET /callback?code=4%2F0abc&state=ff01&code=second HTTP/1.1\r\nHost: 127.0.0.1:8765\r\n\r\n";
    assert_eq!(callback_path(request).unwrap(), "/callback?code=4%2F0abc&state=ff01&code=second");
    let pairs = callback_query(request).unwrap();
    assert_eq!(pairs.len(), 3);
    assert_eq!(pairs[0], ("code".to_string(), "4/0abc".to_string()));
    let (code, state) = callback_code_and_state(&pairs).unwrap();
    assert_eq!(code, "second");
    assert_eq!(state, "ff01");
}

#[test]
fn callback_without_path_or_code_is_refused() {
    assert_eq!(sync_message(callback_query("GET").unwrap_err()), "Invalid OAuth callback request.");
    assert_eq!(sync_message(callback_query("\r\nGET /x HTTP/1.1").unwrap_err()), "Invalid OAuth callback request.");
    let pairs = callback_query("GET /callback?state=1 HTTP/1.1").unwrap();
    assert_eq!(sync_message(callback_code_and_state(&pairs).unwrap_err()), "OAuth callback missing code.");
    let pairs = callback_query("GET /callback?code=1 HTTP/1.1").unwrap();
    assert_eq!(sync_message(callback_code_and_state(&pairs).unwrap_err()), "OAuth callback missing state.");
    let e = callback_query("GET :99999 HTTP/1.1").unwrap_err();
    assert!(sync_message(e).starts_with("Invalid OAuth callback URL: "));
}

#[test]
fn state_must_match() {
    assert!(check_oauth_state("abc", "abc").is_ok());
    assert_eq!(sync_message(check_oauth_state("abc", "abd").unwrap_err()), "OAuth state mismatch.");
}

#[test]
fn exchange_needs_refresh_token() {
    let t = tokens_from_exchange("acc".to_string(), Some("ref".to_string())).unwrap();
    assert_eq!(t.access_token, "acc");
    assert_eq!(t.refresh_token, "ref");
    let e = tokens_from_exchange("acc".to_string(), None).unwrap_err();
    assert_eq!(sync_message(e), "Google did not return a refresh token.");
}

#[test]
fn failed_status_reports_body() {
    assert!(http_failure(204, "X failed: ", "body").is_ok());
    assert_eq!(sync_message(http_failure(500, "X failed: ", "boom").unwrap_err()), "X failed: boom");
    assert_eq!(sync_message(http_failure(199, "X failed: ", "").unwrap_err()), "X failed: ");
}

#[test]
fn drive_addresses() {
    assert_eq!(
        drive_search_url(),
        "https://www.googleapis.com/drive/v3/files?q=name%3D%27locked-calendar-sync.json%27%20and%20trashed%3Dfalse&spaces=drive&fields=files(id,name,etag)"
    );
    assert_eq!(drive_metadata_url("F1"), "https://www.googleapis.com/drive/v3/files/F1?fields=id,etag,name");
    assert_eq!(drive_media_url("F1"), "https://www.googleapis.com/drive/v3/files/F1?alt=media");
    assert_eq!(drive_upload_url("F1"), "https://www.googleapis.com/upload/drive/v3/files/F1?uploadType=media");
    assert_eq!(escape_quotes("it's 'x'"), "it\\'s \\'x\\'");
}

#[test]
fn pull_outcomes() {
    assert_eq!(pull_outcome(404, "whatever").unwrap(), None);
    assert_eq!(sync_message(pull_outcome(500, "down").unwrap_err()), "Drive download failed: down");
    assert_eq!(pull_outcome(200, "  \n").unwrap(), None);
    assert_eq!(pull_outcome(200, " {} ").unwrap(), None);
    assert_eq!(pull_outcome(200, "{\"a\":1}").unwrap(), Some("{\"a\":1}".to_string()));
}

#[test]
fn push_outcomes() {
    assert_eq!(
        sync_message(push_outcome(412, "x").unwrap_err()),
        "Remote sync file changed on another device. Sync again to merge."
    );
    assert_eq!(sync_message(push_outcome(403, "no").unwrap_err()), "Drive upload failed: no");
    assert!(push_outcome(200, "").is_ok());
    assert_eq!(etag_or_unknown(Some("e1".to_string())), "e1");
    assert_eq!(etag_or_unknown(None), "unknown");
}

#[test]
fn drive_file_steps() {
    assert!(matches!(first_drive_step(&None), DriveFileStep::Search));
    match first_drive_step(&Some("F".to_string())) {
        DriveFileStep::FetchMetadata(f) => assert_eq!(f, "F"),
        DriveFileStep::Search => panic!("a known file is refreshed"),
    }
    assert_eq!(sync_message(configured_file_id(&None).unwrap_err()), "Drive file is not configured.");
    assert_eq!(configured_file_id(&Some("F".to_string())).unwrap(), "F");
    assert_eq!(sync_message(drive_file_result(None, None).unwrap_err()), "Drive file id missing.");
    assert_eq!(drive_file_result(Some("F".to_string()), Some("e".to_string())).unwrap(), ("F".to_string(), Some("e".to_string())));
}
