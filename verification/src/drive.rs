use vstd::prelude::*;
use vstd::utf8::{decode_utf8, encode_utf8, valid_utf8};
use crate::auth_service::SessionKey;
use crate::crypto::CryptoProvider;
use crate::errors::{DomainError, DomainResult, ErrorView};
use crate::meta::{KEY_SYNC_DRIVE_ETAG, KEY_SYNC_DRIVE_FILE_ID, KEY_SYNC_REFRESH_TOKEN_ENC};
use crate::oauth::{http_failure, status_ok, url_encoded};
use crate::store::Database;
use crate::sync::SYNC_DRIVE_FILENAME;
use crate::text::{trim_text, trimmed, utf8_error_text};

verus! {

/// The text with each single quote preceded by a backslash.
pub open spec fn quote_escaped(s: Seq<char>) -> Seq<char>
    decreases s.len(),
{
    if s.len() == 0 {
        Seq::empty()
    } else if s.last() == '\'' {
        quote_escaped(s.drop_last()) + seq!['\\', '\'']
    } else {
        quote_escaped(s.drop_last()).push(s.last())
    }
}

/// `s.replace('\'', "\\'")`.
pub fn escape_quotes(s: &str) -> (r: String)
    ensures
        r@ == quote_escaped(s@),
{
    let chars = crate::text::chars_of(s);
    let mut out = String::new();
    let mut i: usize = 0;
    proof {
        assert(chars@.take(0) =~= Seq::<char>::empty());
    }
    while i < chars.len()
        invariant
            i <= chars@.len(),
            out@ == quote_escaped(chars@.take(i as int)),
        decreases chars.len() - i,
    {
        proof {
            let t = chars@.take(i + 1);
            assert(t.drop_last() =~= chars@.take(i as int));
            assert(t.last() == chars@[i as int]);
        }
        if chars[i] == '\'' {
            proof {
                reveal_strlit("\\'");
            }
            out = out.concat("\\'");
        } else {
            let piece = crate::oauth::char_text(chars[i]);
            out = out.concat(piece.as_str());
        }
        i = i + 1;
    }
    proof {
        assert(chars@.take(i as int) =~= chars@);
    }
    out
}

/// The Drive search for the bundle file.
pub open spec fn search_query_text() -> Seq<char> {
    "name='"@ + quote_escaped(SYNC_DRIVE_FILENAME@) + "' and trashed=false"@
}

/// The address of the Drive search for the bundle file.
pub open spec fn search_url_text() -> Seq<char> {
    "https://www.googleapis.com/drive/v3/files?q="@ + url_encoded(search_query_text()) + "&spaces=drive&fields=files(id,name,etag)"@
}

/// The address of the Drive search for the bundle file.
pub fn drive_search_url() -> (r: String)
    ensures
        r@ == search_url_text(),
{
    let query = "name='".to_string().concat(escape_quotes(SYNC_DRIVE_FILENAME).as_str()).concat("' and trashed=false");
    let encoded = crate::oauth::url_encode(query.as_str());
    "https://www.googleapis.com/drive/v3/files?q=".to_string().concat(encoded.as_str()).concat("&spaces=drive&fields=files(id,name,etag)")
}

/// The address of a Drive file's metadata.
pub fn drive_metadata_url(file_id: &str) -> (r: String)
    ensures
        r@ == "https://www.googleapis.com/drive/v3/files/"@ + file_id@ + "?fields=id,etag,name"@,
{
    "https://www.googleapis.com/drive/v3/files/".to_string().concat(file_id).concat("?fields=id,etag,name")
}

/// The address of a Drive file's content.
pub fn drive_media_url(file_id: &str) -> (r: String)
    ensures
        r@ == "https://www.googleapis.com/drive/v3/files/"@ + file_id@ + "?alt=media"@,
{
    "https://www.googleapis.com/drive/v3/files/".to_string().concat(file_id).concat("?alt=media")
}

/// The address that replaces a Drive file's content.
pub fn drive_upload_url(file_id: &str) -> (r: String)
    ensures
        r@ == "https://www.googleapis.com/upload/drive/v3/files/"@ + file_id@ + "?uploadType=media"@,
{
    "https://www.googleapis.com/upload/drive/v3/files/".to_string().concat(file_id).concat("?uploadType=media")
}

/// What a download of the bundle file gives: nothing when the file is
/// gone, empty or an empty JSON object; the text to read otherwise; a
/// failure for any other unsuccessful status.
pub fn pull_outcome(status: u16, text: &str) -> (r: DomainResult<Option<String>>)
    ensures
        status == 404 ==> r == Ok::<Option<String>, DomainError>(None),
        status != 404 && !status_ok(status) ==> (r matches Err(e) && e@ == ErrorView::Sync("Drive download failed: "@ + text@)),
        status != 404 && status_ok(status) ==> match r {
            Ok(None) => trimmed(text@).len() == 0 || trimmed(text@) == "{}"@,
            Ok(Some(t)) => t@ == text@ && trimmed(text@).len() != 0 && trimmed(text@) != "{}"@,
            Err(_) => false,
        },
{
    if status == 404 {
        return Ok(None);
    }
    match http_failure(status, "Drive download failed: ", text) {
        Ok(()) => {},
        Err(e) => {
            return Err(e);
        },
    }
    let t = trim_text(text);
    let empty_object = "{}".to_string();
    if t.as_str().is_empty() || t == empty_object {
        Ok(None)
    } else {
        Ok(Some(text.to_string()))
    }
}

/// What an upload of the bundle file gives: a conflict when the file
/// changed since it was read, a failure for any other unsuccessful
/// status.
pub fn push_outcome(status: u16, text: &str) -> (r: DomainResult<()>)
    ensures
        status == 412 ==> (r matches Err(e)
            && e@ == ErrorView::Sync("Remote sync file changed on another device. Sync again to merge."@)),
        status != 412 && status_ok(status) ==> r is Ok,
        status != 412 && !status_ok(status) ==> (r matches Err(e) && e@ == ErrorView::Sync("Drive upload failed: "@ + text@)),
{
    if status == 412 {
        return Err(DomainError::Sync("Remote sync file changed on another device. Sync again to merge.".to_string()));
    }
    http_failure(status, "Drive upload failed: ", text)
}

/// The version tag that an upload returned, or `unknown`.
pub fn etag_or_unknown(etag: Option<String>) -> (r: String)
    ensures
        match etag {
            Some(t) => r@ == t@,
            None => r@ == "unknown"@,
        },
{
    match etag {
        Some(t) => t,
        None => "unknown".to_string(),
    }
}

/// The Drive file that sync uses must be known.
pub fn configured_file_id(file_id: &Option<String>) -> (r: DomainResult<String>)
    ensures
        match file_id {
            Some(f) => r matches Ok(s) && s@ == f@,
            None => r matches Err(e) && e@ == ErrorView::Sync("Drive file is not configured."@),
        },
{
    match file_id {
        Some(f) => Ok(f.clone()),
        None => Err(DomainError::Sync("Drive file is not configured.".to_string())),
    }
}

/// What finding the bundle file in Drive does next.
pub enum DriveFileStep {
    /// The file is known: read its metadata for its version tag.
    FetchMetadata(String),
    /// Search Drive for a file of the bundle's name.
    Search,
}

/// A known file is refreshed; otherwise Drive is searched.
pub fn first_drive_step(file_id: &Option<String>) -> (r: DriveFileStep)
    ensures
        match file_id {
            Some(f) => r matches DriveFileStep::FetchMetadata(s) && s@ == f@,
            None => r is Search,
        },
{
    match file_id {
        Some(f) => DriveFileStep::FetchMetadata(f.clone()),
        None => DriveFileStep::Search,
    }
}

/// The file and its version tag once found or created; the file must be
/// known by then.
pub fn drive_file_result(file_id: Option<String>, etag: Option<String>) -> (r: DomainResult<(String, Option<String>)>)
    ensures
        match file_id {
            Some(f) => r matches Ok(p) && p.0@ == f@ && p.1 == etag,
            None => r matches Err(e) && e@ == ErrorView::Sync("Drive file id missing."@),
        },
{
    match file_id {
        Some(f) => Ok((f, etag)),
        None => Err(DomainError::Sync("Drive file id missing.".to_string())),
    }
}

/// Stores the Google refresh token encrypted under the session key.
pub fn store_refresh_token<C: CryptoProvider>(db: &mut Database, session: &SessionKey, crypto: &C, refresh_token: &str) -> (r: DomainResult<()>)
    requires
        old(db).wf(),
    ensures
        final(db).wf(),
        final(db).notes == old(db).notes,
        final(db).meta@.tombstones == old(db).meta@.tombstones,
        match r {
            Ok(()) => final(db).meta@.values.contains_key(KEY_SYNC_REFRESH_TOKEN_ENC@)
                && final(db).meta@.values == old(db).meta@.values.insert(KEY_SYNC_REFRESH_TOKEN_ENC@, final(db).meta@.values[KEY_SYNC_REFRESH_TOKEN_ENC@])
                && crypto.opened(final(db).meta@.values[KEY_SYNC_REFRESH_TOKEN_ENC@], session.0@) == Some(refresh_token@),
            Err(e) => e is Crypto && !crypto.seals(refresh_token@, session.0@) && final(db).meta@ == old(db).meta@,
        },
{
    let enc = crypto.encrypt(refresh_token, &session.0)?;
    db.meta.set(KEY_SYNC_REFRESH_TOKEN_ENC, enc.as_slice());
    Ok(())
}

/// The Google refresh token, decrypted with the session key.
pub fn load_refresh_token<C: CryptoProvider>(db: &Database, session: &SessionKey, crypto: &C) -> (r: DomainResult<String>)
    requires
        db.wf(),
    ensures
        !db.meta@.values.contains_key(KEY_SYNC_REFRESH_TOKEN_ENC@) ==> (r matches Err(e)
            && e@ == ErrorView::Sync("Google Drive is not connected."@)),
        db.meta@.values.contains_key(KEY_SYNC_REFRESH_TOKEN_ENC@) ==> match r {
            Ok(t) => crypto.opened(db.meta@.values[KEY_SYNC_REFRESH_TOKEN_ENC@], session.0@) == Some(t@),
            Err(e) => e is Crypto && crypto.opened(db.meta@.values[KEY_SYNC_REFRESH_TOKEN_ENC@], session.0@) is None,
        },
{
    let enc = match db.meta.get(KEY_SYNC_REFRESH_TOKEN_ENC) {
        Some(v) => v,
        None => {
            return Err(DomainError::Sync("Google Drive is not connected.".to_string()));
        },
    };
    crypto.decrypt(enc.as_slice(), &session.0)
}

/// A stored text setting: absent, readable, or not UTF-8.
pub open spec fn stored_text(values: Map<Seq<char>, Seq<u8>>, key: Seq<char>) -> Result<Option<Seq<char>>, ErrorView> {
    if !values.contains_key(key) {
        Ok(None)
    } else if valid_utf8(values[key]) {
        Ok(Some(decode_utf8(values[key])))
    } else {
        Err(ErrorView::Storage(utf8_error_text(values[key])))
    }
}

/// The Drive file and version tag that sync last used.
pub fn drive_file_settings(db: &Database) -> (r: DomainResult<(Option<String>, Option<String>)>)
    requires
        db.wf(),
    ensures
        match (stored_text(db.meta@.values, KEY_SYNC_DRIVE_FILE_ID@), stored_text(db.meta@.values, KEY_SYNC_DRIVE_ETAG@)) {
            (Err(e), _) => r matches Err(x) && x@ == e,
            (Ok(_), Err(e)) => r matches Err(x) && x@ == e,
            (Ok(f), Ok(t)) => r matches Ok(p) && (match p.0 { Some(s) => f == Some(s@), None => f is None })
                && (match p.1 { Some(s) => t == Some(s@), None => t is None }),
        },
{
    let file_id = db.meta.get_sync_drive_file_id()?;
    proof {
        if file_id is Some {
            crate::text::lemma_utf8_roundtrip(file_id->0@);
        }
    }
    let etag = db.meta.get_sync_drive_etag()?;
    proof {
        if etag is Some {
            crate::text::lemma_utf8_roundtrip(etag->0@);
        }
    }
    Ok((file_id, etag))
}

/// What sync needs from the journal to reach Google Drive: the refresh
/// token, and the file and version tag it last used.
#[derive(Debug)]
pub struct DriveSettings {
    pub refresh_token: String,
    pub file_id: Option<String>,
    pub etag: Option<String>,
}

/// Gathers what a Google Drive sync provider is made from.
pub struct SyncProviderFactory;

impl SyncProviderFactory {
    /// The stored refresh token (decrypted with the session key), then the
    /// stored Drive file and version tag.
    pub fn google_drive_settings<C: CryptoProvider>(db: &Database, session: &SessionKey, crypto: &C) -> (r: DomainResult<DriveSettings>)
        requires
            db.wf(),
        ensures
            match r {
                Ok(s) => {
                    &&& db.meta@.values.contains_key(KEY_SYNC_REFRESH_TOKEN_ENC@)
                    &&& crypto.opened(db.meta@.values[KEY_SYNC_REFRESH_TOKEN_ENC@], session.0@) == Some(s.refresh_token@)
                    &&& (match s.file_id { Some(f) => stored_text(db.meta@.values, KEY_SYNC_DRIVE_FILE_ID@) == Ok::<Option<Seq<char>>, ErrorView>(Some(f@)), None => stored_text(db.meta@.values, KEY_SYNC_DRIVE_FILE_ID@) == Ok::<Option<Seq<char>>, ErrorView>(None) })
                    &&& (match s.etag { Some(t) => stored_text(db.meta@.values, KEY_SYNC_DRIVE_ETAG@) == Ok::<Option<Seq<char>>, ErrorView>(Some(t@)), None => stored_text(db.meta@.values, KEY_SYNC_DRIVE_ETAG@) == Ok::<Option<Seq<char>>, ErrorView>(None) })
                },
                Err(e) => {
                    ||| !db.meta@.values.contains_key(KEY_SYNC_REFRESH_TOKEN_ENC@) && e@ == ErrorView::Sync("Google Drive is not connected."@)
                    ||| db.meta@.values.contains_key(KEY_SYNC_REFRESH_TOKEN_ENC@) && e is Crypto
                        && crypto.opened(db.meta@.values[KEY_SYNC_REFRESH_TOKEN_ENC@], session.0@) is None
                    ||| stored_text(db.meta@.values, KEY_SYNC_DRIVE_FILE_ID@) == Err::<Option<Seq<char>>, ErrorView>(e@)
                    ||| stored_text(db.meta@.values, KEY_SYNC_DRIVE_ETAG@) == Err::<Option<Seq<char>>, ErrorView>(e@)
                },
            },
            (db.meta@.values.contains_key(KEY_SYNC_REFRESH_TOKEN_ENC@)
                && crypto.opened(db.meta@.values[KEY_SYNC_REFRESH_TOKEN_ENC@], session.0@) is Some
                && stored_text(db.meta@.values, KEY_SYNC_DRIVE_FILE_ID@) is Ok
                && stored_text(db.meta@.values, KEY_SYNC_DRIVE_ETAG@) is Ok) ==> r is Ok,
    {
        let refresh_token = load_refresh_token(db, session, crypto)?;
        let (file_id, etag) = drive_file_settings(db)?;
        Ok(DriveSettings { refresh_token, file_id, etag })
    }
}

} // verus!
