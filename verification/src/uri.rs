//! Parts of URIs and authorities, as the `http` crate reads them.

use vstd::prelude::*;

verus! {

/// The authority of a URI: its text, its host and its port where it names one.
#[derive(Debug)]
pub struct AuthorityParts {
    pub text: String,
    pub host: String,
    pub port: Option<u16>,
}

/// The scheme and the authority of a URI.
#[derive(Debug)]
pub struct UriParts {
    pub scheme: Option<String>,
    pub authority: Option<AuthorityParts>,
}

pub struct AuthorityView {
    pub text: Seq<char>,
    pub host: Seq<char>,
    pub port: Option<u16>,
}

pub struct UriView {
    pub scheme: Option<Seq<char>>,
    pub authority: Option<AuthorityView>,
}

impl View for AuthorityParts {
    type V = AuthorityView;

    open spec fn view(&self) -> AuthorityView {
        AuthorityView { text: self.text@, host: self.host@, port: self.port }
    }
}

impl View for UriParts {
    type V = UriView;

    open spec fn view(&self) -> UriView {
        UriView {
            scheme: match self.scheme {
                Some(scheme) => Some(scheme@),
                None => None,
            },
            authority: match self.authority {
                Some(authority) => Some(authority@),
                None => None,
            },
        }
    }
}

/// What `http::uri::Authority` reads in a text: nothing where it refuses it.
pub uninterp spec fn read_authority(text: Seq<char>) -> Option<AuthorityView>;

/// What `http::Uri` reads in a text: nothing where it refuses it.
pub uninterp spec fn read_uri(text: Seq<char>) -> Option<UriView>;

/// Calls `Authority::from_str` and reads the authority's text, host and port. That they are a
/// function of the text alone, and that the text of an accepted authority is the text that was
/// read, is all that is claimed.
#[verifier::external_body]
pub(crate) fn parse_authority(text: &str) -> (r: Option<AuthorityParts>)
    ensures
        (match r {
            Some(parts) => Some(parts@),
            None => None,
        }) == read_authority(text@),
        r matches Some(parts) ==> parts.text@ == text@,
{
    let authority = text.parse::<http::uri::Authority>().ok()?;
    Some(AuthorityParts {
        text: authority.as_str().to_owned(),
        host: authority.host().to_owned(),
        port: authority.port_u16(),
    })
}

/// Calls `Uri::from_str` and reads the URI's scheme and authority. That they are a function of the
/// text alone is all that is claimed.
#[verifier::external_body]
pub(crate) fn parse_uri(text: &str) -> (r: Option<UriParts>)
    ensures
        (match r {
            Some(parts) => Some(parts@),
            None => None,
        }) == read_uri(text@),
{
    let uri = text.parse::<http::Uri>().ok()?;
    Some(UriParts {
        scheme: uri.scheme_str().map(str::to_owned),
        authority: uri.authority().map(|authority| AuthorityParts {
            text: authority.as_str().to_owned(),
            host: authority.host().to_owned(),
            port: authority.port_u16(),
        }),
    })
}

} // verus!
