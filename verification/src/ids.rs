use vstd::prelude::*;

verus! {

/// What `Uuid::parse_str` followed by `to_string` gives for a text: the
/// UUID in lower-case hyphenated form, or the parse error's message when
/// it is not a UUID.
pub uninterp spec fn uuid_canonical(s: Seq<char>) -> Result<Seq<char>, Seq<char>>;

/// A fresh random (version 4) UUID, in lower-case hyphenated form
/// (`Uuid::new_v4().to_string()`); reading it back gives it again.
#[verifier::external_body]
pub(crate) fn new_uuid_text() -> (r: String)
    ensures
        (uuid_canonical(r@) == Ok::<Seq<char>, Seq<char>>(r@)),
{
    uuid::Uuid::new_v4().to_string()
}

/// `Uuid::parse_str(s)` written back with `to_string`; on failure the
/// parse error's message. A canonical text reads back as itself.
#[verifier::external_body]
pub(crate) fn canonical_uuid(s: &str) -> (r: Result<String, String>)
    ensures
        match r {
            Ok(t) => uuid_canonical(s@) == Ok::<Seq<char>, Seq<char>>(t@) && uuid_canonical(t@) == Ok::<Seq<char>, Seq<char>>(t@),
            Err(m) => uuid_canonical(s@) == Err::<Seq<char>, Seq<char>>(m@),
        },
{
    match uuid::Uuid::parse_str(s) {
        Ok(u) => Ok(u.to_string()),
        Err(e) => Err(e.to_string()),
    }
}

} // verus!
