use vstd::prelude::*;
use base64::Engine;
use sha2::Digest;
use crate::crypto::random_bytes;
use crate::decimal::{decimal_text, u64_to_text};
use crate::errors::{DomainError, DomainResult, ErrorView};
use crate::text::{is_white_space, white_space};

verus! {

pub const OAUTH_REDIRECT_PORT: u16 = 8765;
pub const OAUTH_REDIRECT_PATH: &'static str = "/callback";
pub const DRIVE_FILE_SCOPE: &'static str = "https://www.googleapis.com/auth/drive.file";

/// The tokens that Google grants the journal.
#[derive(Debug)]
pub struct OAuthTokens {
    pub refresh_token: String,
    pub access_token: String,
}

/// What the URL-safe base64 engine without padding
/// (`base64::engine::general_purpose::URL_SAFE_NO_PAD`) writes for bytes.
pub uninterp spec fn b64url_encoded(bytes: Seq<u8>) -> Seq<char>;

/// What `Sha256::digest` gives for bytes.
pub uninterp spec fn sha256_digest(bytes: Seq<u8>) -> Seq<u8>;

/// Whether `urlencoding::encode` writes a byte as it is: ASCII letters and
/// digits, `-`, `.`, `_` and `~`.
pub open spec fn url_unreserved(b: u8) -> bool {
    (48 <= b <= 57) || (65 <= b <= 90) || (97 <= b <= 122) || b == 45 || b == 46 || b == 95 || b == 126
}

/// An upper-case hexadecimal digit of a value below 16.
pub open spec fn upper_hex_digit(d: int) -> char {
    if d < 10 { ('0' as int + d) as char } else { ('A' as int + d - 10) as char }
}

/// How `urlencoding::encode` writes one byte: itself, or `%` and two
/// upper-case hexadecimal digits.
pub open spec fn url_byte_text(b: u8) -> Seq<char> {
    if url_unreserved(b) {
        seq![b as char]
    } else {
        seq!['%', upper_hex_digit(b as int / 16), upper_hex_digit(b as int % 16)]
    }
}

/// How `urlencoding::encode` writes bytes, one after another.
pub open spec fn url_encoded_bytes(bytes: Seq<u8>) -> Seq<char>
    decreases bytes.len(),
{
    if bytes.len() == 0 {
        Seq::empty()
    } else {
        url_encoded_bytes(bytes.drop_last()) + url_byte_text(bytes.last())
    }
}

/// What `urlencoding::encode` writes for a text: its UTF-8 bytes, each as
/// `url_byte_text` writes it.
pub open spec fn url_encoded(s: Seq<char>) -> Seq<char> {
    url_encoded_bytes(vstd::utf8::encode_utf8(s))
}

/// What `Url::parse` followed by `query_pairs` reads from a text: the
/// decoded key-value pairs of the query, in order, or the message of the
/// parse error.
pub uninterp spec fn url_query(s: Seq<char>) -> Result<Seq<(Seq<char>, Seq<char>)>, Seq<char>>;

/// `URL_SAFE_NO_PAD.encode`. The length computation inside cannot
/// overflow: no slice holds more than `isize::MAX` bytes.
#[verifier::external_body]
fn b64url_encode(bytes: &[u8]) -> (r: String)
    ensures
        r@ == b64url_encoded(bytes@),
{
    base64::engine::general_purpose::URL_SAFE_NO_PAD.encode(bytes)
}

/// `Sha256::digest`: the 32-byte SHA-256 digest of the bytes.
#[verifier::external_body]
fn sha256(bytes: &[u8]) -> (r: Vec<u8>)
    ensures
        r@ == sha256_digest(bytes@),
        r@.len() == 32,
{
    sha2::Sha256::digest(bytes).to_vec()
}

/// `urlencoding::encode`: the text with every byte outside `A-Z a-z 0-9 - . _ ~`
/// percent-encoded.
#[verifier::external_body]
pub(crate) fn url_encode(s: &str) -> (r: String)
    ensures
        r@ == url_encoded(s@),
{
    urlencoding::encode(s).into_owned()
}

/// `Url::parse(s)` and its `query_pairs`, or the parse error's message.
#[verifier::external_body]
fn url_query_pairs(s: &str) -> (r: Result<Vec<(String, String)>, String>)
    ensures
        match r {
            Ok(v) => url_query(s@) == Ok::<Seq<(Seq<char>, Seq<char>)>, Seq<char>>(v@.map_values(|p: (String, String)| (p.0@, p.1@))),
            Err(m) => url_query(s@) == Err::<Seq<(Seq<char>, Seq<char>)>, Seq<char>>(m@),
        },
{
    match url::Url::parse(s) {
        Ok(u) => Ok(u.query_pairs().map(|(k, v)| (k.into_owned(), v.into_owned())).collect()),
        Err(e) => Err(e.to_string()),
    }
}

/// The lower-case hexadecimal digit of a value below 16.
pub open spec fn hex_digit(d: int) -> char {
    if d < 10 {
        ('0' as int + d) as char
    } else {
        ('a' as int + d - 10) as char
    }
}

/// A byte in lower-case hexadecimal without leading zeros.
pub open spec fn hex_text(b: u8) -> Seq<char> {
    if b < 16 {
        seq![hex_digit(b as int)]
    } else {
        seq![hex_digit(b as int / 16), hex_digit(b as int % 16)]
    }
}

/// The lower-case hexadecimal digit of a value below 16.
fn hex_char(d: u8) -> (c: char)
    requires
        d < 16,
    ensures
        c == hex_digit(d as int),
{
    if d < 10 {
        (48u8 + d) as char
    } else {
        (87u8 + d) as char
    }
}

/// The byte in lower-case hexadecimal without leading zeros, as
/// `format!("{:x}", b)` writes it.
fn lower_hex(b: u8) -> (r: String)
    ensures
        r@ == hex_text(b),
{
    if b < 16 {
        char_text(hex_char(b))
    } else {
        let hi = char_text(hex_char(b / 16));
        let lo = char_text(hex_char(b % 16));
        hi.concat(lo.as_str())
    }
}

/// The bytes, each in lower-case hexadecimal without leading zeros, one
/// after another.
pub open spec fn hex_concat(bytes: Seq<u8>) -> Seq<char>
    decreases bytes.len(),
{
    if bytes.len() == 0 {
        Seq::empty()
    } else {
        hex_concat(bytes.drop_last()) + hex_text(bytes.last())
    }
}

/// The address that Google sends the user back to.
pub open spec fn redirect_text() -> Seq<char> {
    "http://127.0.0.1:"@ + decimal_text(OAUTH_REDIRECT_PORT as nat) + OAUTH_REDIRECT_PATH@
}

/// The address that Google sends the user back to:
/// `http://127.0.0.1:8765/callback`.
pub fn redirect_uri() -> (r: String)
    ensures
        r@ == redirect_text(),
{
    let port = u64_to_text(OAUTH_REDIRECT_PORT as u64);
    "http://127.0.0.1:".to_string().concat(port.as_str()).concat(OAUTH_REDIRECT_PATH)
}

/// The PKCE verifier that 32 random bytes give, and its challenge: the
/// bytes in URL-safe base64, and the SHA-256 digest of that text in
/// URL-safe base64.
pub fn pkce_from_bytes(bytes: &[u8]) -> (r: (String, String))
    ensures
        r.0@ == b64url_encoded(bytes@),
        r.1@ == b64url_encoded(sha256_digest(vstd::utf8::encode_utf8(r.0@))),
{
    let verifier = b64url_encode(bytes);
    let vb = crate::text::text_bytes(verifier.as_str());
    let digest = sha256(vb.as_slice());
    let challenge = b64url_encode(digest.as_slice());
    (verifier, challenge)
}

/// A fresh PKCE verifier from 32 random bytes, and its challenge.
pub fn pkce_pair() -> (r: (String, String))
    ensures
        exists|bytes: Seq<u8>| bytes.len() == 32 && r.0@ == b64url_encoded(bytes),
        r.1@ == b64url_encoded(sha256_digest(vstd::utf8::encode_utf8(r.0@))),
{
    let bytes = random_bytes(32);
    pkce_from_bytes(bytes.as_slice())
}

/// The anti-forgery state of a sign-in: each byte in hexadecimal.
pub fn csrf_from_bytes(bytes: &[u8]) -> (r: String)
    ensures
        r@ == hex_concat(bytes@),
{
    let mut out = String::new();
    let mut i: usize = 0;
    proof {
        assert(bytes@.take(0) =~= Seq::<u8>::empty());
    }
    while i < bytes.len()
        invariant
            i <= bytes@.len(),
            out@ == hex_concat(bytes@.take(i as int)),
        decreases bytes.len() - i,
    {
        let h = lower_hex(bytes[i]);
        proof {
            let t = bytes@.take(i + 1);
            assert(t.drop_last() =~= bytes@.take(i as int));
            assert(t.last() == bytes@[i as int]);
        }
        out = out.concat(h.as_str());
        i = i + 1;
    }
    proof {
        assert(bytes@.take(i as int) =~= bytes@);
    }
    out
}

/// A fresh anti-forgery state from 16 random bytes.
pub fn new_csrf_state() -> (r: String)
    ensures
        exists|bytes: Seq<u8>| bytes.len() == 16 && r@ == hex_concat(bytes),
{
    let bytes = random_bytes(16);
    csrf_from_bytes(bytes.as_slice())
}

/// The consent page address for a sign-in.
pub open spec fn auth_url_text(client_id: Seq<char>, state: Seq<char>, challenge: Seq<char>) -> Seq<char> {
    "https://accounts.google.com/o/oauth2/v2/auth?response_type=code&client_id="@ + url_encoded(client_id)
        + "&redirect_uri="@ + url_encoded(redirect_text())
        + "&scope="@ + url_encoded(DRIVE_FILE_SCOPE@)
        + "&state="@ + url_encoded(state)
        + "&code_challenge="@ + url_encoded(challenge)
        + "&code_challenge_method=S256"@
}

/// The consent page address for a sign-in.
pub fn authorization_url(client_id: &str, state: &str, challenge: &str) -> (r: String)
    ensures
        r@ == auth_url_text(client_id@, state@, challenge@),
{
    let redirect = redirect_uri();
    "https://accounts.google.com/o/oauth2/v2/auth?response_type=code&client_id=".to_string()
        .concat(url_encode(client_id).as_str())
        .concat("&redirect_uri=")
        .concat(url_encode(redirect.as_str()).as_str())
        .concat("&scope=")
        .concat(url_encode(DRIVE_FILE_SCOPE).as_str())
        .concat("&state=")
        .concat(url_encode(state).as_str())
        .concat("&code_challenge=")
        .concat(url_encode(challenge).as_str())
        .concat("&code_challenge_method=S256")
}

/// The first position at or after `i` that does not hold white space.
pub open spec fn skip_white(s: Seq<char>, i: int) -> int
    decreases s.len() - i,
{
    if i < 0 || i >= s.len() {
        i
    } else if white_space(s[i]) {
        skip_white(s, i + 1)
    } else {
        i
    }
}

/// The first position at or after `i` that holds white space.
pub open spec fn skip_word(s: Seq<char>, i: int) -> int
    decreases s.len() - i,
{
    if i < 0 || i >= s.len() {
        i
    } else if !white_space(s[i]) {
        skip_word(s, i + 1)
    } else {
        i
    }
}

/// The second word of a text, words being separated by white space
/// (`split_whitespace().nth(1)`).
pub open spec fn second_word(s: Seq<char>) -> Option<Seq<char>> {
    let a = skip_white(s, 0);
    let b = skip_word(s, a);
    let c = skip_white(s, b);
    let d = skip_word(s, c);
    if c < s.len() {
        Some(s.subrange(c, d))
    } else {
        None
    }
}

/// The first line of a text (`lines().next()`, or the empty text): up to
/// the first line feed, without a carriage return just before it.
pub open spec fn first_line(s: Seq<char>) -> Seq<char> {
    if exists|i: int| 0 <= i < s.len() && s[i] == '\n' {
        let i = choose|i: int| 0 <= i < s.len() && s[i] == '\n' && forall|j: int| 0 <= j < i ==> s[j] != '\n';
        if i > 0 && s[i - 1] == '\r' {
            s.subrange(0, i - 1)
        } else {
            s.subrange(0, i)
        }
    } else {
        s
    }
}

fn skip_white_from(s: &Vec<char>, i: usize) -> (r: usize)
    requires
        i <= s@.len(),
    ensures
        r == skip_white(s@, i as int),
        i <= r <= s@.len(),
    decreases s@.len() - i,
{
    if i < s.len() && is_white_space(s[i]) {
        skip_white_from(s, i + 1)
    } else {
        i
    }
}

fn skip_word_from(s: &Vec<char>, i: usize) -> (r: usize)
    requires
        i <= s@.len(),
    ensures
        r == skip_word(s@, i as int),
        i <= r <= s@.len(),
    decreases s@.len() - i,
{
    if i < s.len() && !is_white_space(s[i]) {
        skip_word_from(s, i + 1)
    } else {
        i
    }
}

fn text_of(chars: &Vec<char>, from: usize, to: usize) -> (r: String)
    requires
        from <= to <= chars@.len(),
    ensures
        r@ == chars@.subrange(from as int, to as int),
{
    let mut out = String::new();
    let mut i = from;
    while i < to
        invariant
            from <= i <= to,
            to <= chars@.len(),
            out@ == chars@.subrange(from as int, i as int),
        decreases to - i,
    {
        let c = chars[i];
        let piece = char_text(c);
        out = out.concat(piece.as_str());
        proof {
            assert(chars@.subrange(from as int, i + 1) =~= chars@.subrange(from as int, i as int).push(c));
        }
        i = i + 1;
    }
    out
}

/// `char::to_string`: the one-character text.
#[verifier::external_body]
pub(crate) fn char_text(c: char) -> (r: String)
    ensures
        r@ == seq![c],
{
    c.to_string()
}

/// The position of the first line feed, or the length when there is none.
fn line_end(chars: &Vec<char>) -> (r: usize)
    ensures
        r <= chars@.len(),
        r < chars@.len() ==> chars@[r as int] == '\n',
        forall|j: int| 0 <= j < r ==> chars@[j] != '\n',
{
    let n = chars.len();
    let mut i: usize = 0;
    while i < n
        invariant
            i <= n,
            n == chars@.len(),
            forall|j: int| 0 <= j < i ==> chars@[j] != '\n',
        decreases n - i,
    {
        if chars[i] == '\n' {
            return i;
        }
        i = i + 1;
    }
    n
}

proof fn lemma_first_line(s: Seq<char>, end: int)
    requires
        0 <= end <= s.len(),
        end < s.len() ==> s[end] == '\n',
        forall|j: int| 0 <= j < end ==> s[j] != '\n',
    ensures
        first_line(s) == if end < s.len() && end > 0 && s[end - 1] == '\r' {
            s.subrange(0, end - 1)
        } else {
            s.subrange(0, end)
        },
{
    if end < s.len() {
        let k = choose|k: int| 0 <= k < s.len() && s[k] == '\n' && forall|j: int| 0 <= j < k ==> s[j] != '\n';
        if k < end {
            assert(s[k] != '\n');
        }
        if end < k {
            assert(s[end] != '\n');
        }
        assert(k == end);
    } else {
        assert(s.subrange(0, end) =~= s);
    }
}

/// The second word of a text (`split_whitespace().nth(1)`).
fn second_word_of(line: &str) -> (r: Option<String>)
    ensures
        match second_word(line@) {
            Some(w) => r matches Some(s) && s@ == w,
            None => r is None,
        },
{
    let lc = crate::text::chars_of(line);
    let a = skip_white_from(&lc, 0);
    let b = skip_word_from(&lc, a);
    let c = skip_white_from(&lc, b);
    let d = skip_word_from(&lc, c);
    if c < lc.len() {
        Some(text_of(&lc, c, d))
    } else {
        None
    }
}

/// The path that the browser's callback request asks for: the second
/// word of its first line.
pub fn callback_path(request: &str) -> (r: DomainResult<String>)
    ensures
        match second_word(first_line(request@)) {
            Some(p) => r matches Ok(s) && s@ == p,
            None => r matches Err(e) && e@ == ErrorView::Sync("Invalid OAuth callback request."@),
        },
{
    let chars = crate::text::chars_of(request);
    let end = line_end(&chars);
    let mut stop = end;
    if end < chars.len() && end > 0 && chars[end - 1] == '\r' {
        stop = end - 1;
    }
    let line = text_of(&chars, 0, stop);
    proof {
        lemma_first_line(request@, end as int);
    }
    match second_word_of(line.as_str()) {
        Some(p) => Ok(p),
        None => Err(DomainError::Sync("Invalid OAuth callback request.".to_string())),
    }
}

/// The value of the last pair with the key.
pub open spec fn last_value(pairs: Seq<(Seq<char>, Seq<char>)>, key: Seq<char>) -> Option<Seq<char>>
    decreases pairs.len(),
{
    if pairs.len() == 0 {
        None
    } else if pairs.last().0 == key {
        Some(pairs.last().1)
    } else {
        last_value(pairs.drop_last(), key)
    }
}

/// The query of the callback request, read before the browser is answered.
pub fn callback_query(request: &str) -> (r: DomainResult<Vec<(String, String)>>)
    ensures
        match second_word(first_line(request@)) {
            None => r matches Err(e) && e@ == ErrorView::Sync("Invalid OAuth callback request."@),
            Some(path) => match url_query("http://127.0.0.1"@ + path) {
                Err(m) => r matches Err(e) && e@ == ErrorView::Sync("Invalid OAuth callback URL: "@ + m),
                Ok(pairs) => r matches Ok(v) && v@.map_values(|p: (String, String)| (p.0@, p.1@)) == pairs,
            },
        },
{
    let path = callback_path(request)?;
    let url = "http://127.0.0.1".to_string().concat(path.as_str());
    match url_query_pairs(url.as_str()) {
        Ok(v) => Ok(v),
        Err(m) => Err(DomainError::Sync("Invalid OAuth callback URL: ".to_string().concat(m.as_str()))),
    }
}

/// The value of the last pair with the key.
fn find_last_value(pairs: &Vec<(String, String)>, key: &str) -> (r: Option<String>)
    ensures
        match last_value(pairs@.map_values(|p: (String, String)| (p.0@, p.1@)), key@) {
            Some(v) => r matches Some(s) && s@ == v,
            None => r is None,
        },
{
    let ghost views = pairs@.map_values(|p: (String, String)| (p.0@, p.1@));
    let k = key.to_string();
    let mut i: usize = pairs.len();
    proof {
        assert(views.take(pairs@.len() as int) =~= views);
    }
    while i > 0
        invariant
            i <= pairs@.len(),
            k@ == key@,
            views == pairs@.map_values(|p: (String, String)| (p.0@, p.1@)),
            last_value(views, key@) == last_value(views.take(i as int), key@),
        decreases i,
    {
        let ghost t = views.take(i as int);
        proof {
            assert(t.last() == (pairs@[i - 1].0@, pairs@[i - 1].1@));
            assert(t.drop_last() =~= views.take(i - 1));
        }
        if pairs[i - 1].0 == k {
            return Some(pairs[i - 1].1.clone());
        }
        i = i - 1;
    }
    None
}

/// The code and the anti-forgery state among the callback's query pairs;
/// the last of each counts.
pub fn callback_code_and_state(pairs: &Vec<(String, String)>) -> (r: DomainResult<(String, String)>)
    ensures
        ({
            let views = pairs@.map_values(|p: (String, String)| (p.0@, p.1@));
            match (last_value(views, "code"@), last_value(views, "state"@)) {
                (Some(code), Some(state)) => r matches Ok(t) && t.0@ == code && t.1@ == state,
                (None, _) => r matches Err(e) && e@ == ErrorView::Sync("OAuth callback missing code."@),
                (Some(_), None) => r matches Err(e) && e@ == ErrorView::Sync("OAuth callback missing state."@),
            }
        }),
{
    let code = find_last_value(pairs, "code");
    let state = find_last_value(pairs, "state");
    match code {
        None => Err(DomainError::Sync("OAuth callback missing code.".to_string())),
        Some(c) => match state {
            None => Err(DomainError::Sync("OAuth callback missing state.".to_string())),
            Some(s) => Ok((c, s)),
        },
    }
}

/// The callback must carry the anti-forgery state that the sign-in sent.
pub fn check_oauth_state(state: &str, expected: &str) -> (r: DomainResult<()>)
    ensures
        state@ == expected@ ==> r is Ok,
        state@ != expected@ ==> (r matches Err(e) && e@ == ErrorView::Sync("OAuth state mismatch."@)),
{
    let a = state.to_string();
    let b = expected.to_string();
    if a == b {
        Ok(())
    } else {
        Err(DomainError::Sync("OAuth state mismatch.".to_string()))
    }
}

/// The tokens of a successful code exchange; Google must return a refresh
/// token.
pub fn tokens_from_exchange(access_token: String, refresh_token: Option<String>) -> (r: DomainResult<OAuthTokens>)
    ensures
        match refresh_token {
            Some(t) => r matches Ok(tk) && tk.refresh_token@ == t@ && tk.access_token@ == access_token@,
            None => r matches Err(e) && e@ == ErrorView::Sync("Google did not return a refresh token."@),
        },
{
    match refresh_token {
        Some(t) => Ok(OAuthTokens { refresh_token: t, access_token }),
        None => Err(DomainError::Sync("Google did not return a refresh token.".to_string())),
    }
}

/// Whether an HTTP status is a success (`StatusCode::is_success`: 200 to 299).
pub open spec fn status_ok(status: u16) -> bool {
    200 <= status <= 299
}

/// A response that is not a success fails with the prefix and its body.
pub fn http_failure(status: u16, prefix: &str, body: &str) -> (r: DomainResult<()>)
    ensures
        status_ok(status) ==> r is Ok,
        !status_ok(status) ==> (r matches Err(e) && e@ == ErrorView::Sync(prefix@ + body@)),
{
    if 200 <= status && status <= 299 {
        Ok(())
    } else {
        Err(DomainError::Sync(prefix.to_string().concat(body)))
    }
}

} // verus!
