use vstd::prelude::*;

verus! {

use crate::errors::CodecError;

/// What `url::Url::parse` makes of a piece of text: nothing when the text
/// is no absolute URL, else the serialization of the parsed URL.
pub uninterp spec fn url_parse_of(s: Seq<char>) -> Option<Seq<char>>;

/// Text that parses as an absolute URL and is already in the serialized
/// form the parser produces, so that re-parsing gives the text back.
pub closed spec fn spec_url_normalized(s: Seq<char>) -> bool {
    url_parse_of(s) == Some(s)
}

/// Normalized text is a fixed point of parsing.
pub proof fn lemma_normalized_parse(s: Seq<char>)
    requires
        spec_url_normalized(s),
    ensures
        url_parse_of(s) == Some(s),
{
}

/// Relies on `url::Url::parse` and `url::Url::to_string`: whether text
/// parses, and what the parsed URL serializes to, depend on the text alone;
/// and serializing a parsed URL gives text that parses back to the same URL.
#[verifier::external_body]
fn parse_url_text(s: &String) -> (r: Option<String>)
    ensures
        match r {
            Some(t) => url_parse_of(s@) == Some(t@) && url_parse_of(t@) == Some(t@),
            None => url_parse_of(s@) is None,
        },
{
    match url::Url::parse(s.as_str()) {
        Ok(u) => Some(u.to_string()),
        Err(_) => None,
    }
}

/// An absolute archive URL, held in the serialized form of the parser.
#[derive(Debug, PartialEq, Eq)]
pub struct ArchiveUrl {
    text: String,
}

impl View for ArchiveUrl {
    type V = Seq<char>;

    closed spec fn view(&self) -> Seq<char> {
        self.text@
    }
}

impl ArchiveUrl {
    /// Every archive URL the library hands out is in normalized form.
    #[verifier::type_invariant]
    pub closed spec fn inv(self) -> bool {
        spec_url_normalized(self.text@)
    }

    /// The invariant of an archive URL says exactly that its text is
    /// normalized.
    pub proof fn lemma_inv_normalized(u: &ArchiveUrl)
        requires
            u.inv(),
        ensures
            spec_url_normalized(u@),
    {
    }

    /// Parse text as an absolute URL; rejected text yields `BadUrl`.
    pub fn parse(s: &String) -> (r: Result<ArchiveUrl, CodecError>)
        ensures
            match r {
                Ok(u) => url_parse_of(s@) == Some(u@) && spec_url_normalized(u@),
                Err(e) => url_parse_of(s@) is None && e == CodecError::BadUrl,
            },
    {
        match parse_url_text(s) {
            Some(t) => Ok(ArchiveUrl { text: t }),
            None => Err(CodecError::BadUrl),
        }
    }

    /// The serialized text of this URL.
    pub fn as_string(&self) -> (r: &String)
        ensures
            r@ == self@,
    {
        &self.text
    }

}

impl Clone for ArchiveUrl {
    fn clone(&self) -> (r: Self)
        ensures
            r@ == self@,
    {
        proof {
            use_type_invariant(self);
        }
        ArchiveUrl { text: self.text.clone() }
    }
}

} // verus!
