//! API credentials: base URL, secret key and sending domain, checked when
//! they are made.
use vstd::prelude::*;

use crate::text::{contains_char, has_char};

verus! {

/// The API base used when none is given.
pub const MAILGUN_DEFAULT_API: &'static str = "https://api.mailgun.net/v3";

/// The shortest API key accepted, in characters.
pub const MIN_API_KEY_LEN: usize = 35;

/// Which check a set of credentials failed.
#[derive(Debug, Clone, Copy, PartialEq, Eq, Structural)]
pub enum CredentialsError {
    /// The API base does not start with `http`.
    InvalidApiBase,
    /// The API base holds no `.`.
    InvalidApiBaseFormat,
    /// The API key is shorter than the minimum.
    InvalidApiKeyLength,
    /// The sending domain holds no `.`.
    InvalidDomain,
}

/// What `Credentials` hold.
pub struct CredentialsView {
    pub api_base: Seq<char>,
    pub api_key: Seq<char>,
    pub domain: Seq<char>,
}

/// Private API key and sending domain, with the API's base URL.
#[derive(Debug, Clone)]
pub struct Credentials {
    api_base: String,
    api_key: String,
    domain: String,
}

impl View for Credentials {
    type V = CredentialsView;

    closed spec fn view(&self) -> CredentialsView {
        CredentialsView { api_base: self.api_base@, api_key: self.api_key@, domain: self.domain@ }
    }
}

/// `s` starts with `http`.
pub open spec fn starts_with_http(s: Seq<char>) -> bool {
    s.len() >= 4 && s.take(4) == seq!['h', 't', 't', 'p']
}

/// The first check that the three texts fail, in the order: prefix of the
/// base, dot in the base, length of the key, dot in the domain.
pub open spec fn credentials_check(
    api_base: Seq<char>,
    api_key: Seq<char>,
    domain: Seq<char>,
) -> Option<CredentialsError> {
    if !starts_with_http(api_base) {
        Some(CredentialsError::InvalidApiBase)
    } else if !has_char(api_base, '.') {
        Some(CredentialsError::InvalidApiBaseFormat)
    } else if api_key.len() < MIN_API_KEY_LEN {
        Some(CredentialsError::InvalidApiKeyLength)
    } else if !has_char(domain, '.') {
        Some(CredentialsError::InvalidDomain)
    } else {
        None
    }
}

impl Credentials {
    /// Well-formed credentials pass every check.
    pub open spec fn wf(self) -> bool {
        credentials_check(self@.api_base, self@.api_key, self@.domain) is None
    }

    /// Credentials for the default API base.
    pub fn new(api_key: &str, domain: &str) -> (r: Result<Self, CredentialsError>)
        ensures
            match r {
                Ok(c) => {
                    &&& api_key@.len() >= MIN_API_KEY_LEN
                    &&& has_char(domain@, '.')
                    &&& c@ == (CredentialsView {
                        api_base: MAILGUN_DEFAULT_API@,
                        api_key: api_key@,
                        domain: domain@,
                    })
                    &&& c.wf()
                },
                Err(e) => {
                    ||| api_key@.len() < MIN_API_KEY_LEN && e == CredentialsError::InvalidApiKeyLength
                    ||| api_key@.len() >= MIN_API_KEY_LEN && !has_char(domain@, '.') && e
                        == CredentialsError::InvalidDomain
                },
            },
    {
        proof {
            reveal_strlit("https://api.mailgun.net/v3");
            assert(MAILGUN_DEFAULT_API@.take(4) =~= seq!['h', 't', 't', 'p']);
            assert(MAILGUN_DEFAULT_API@[11] == '.');
        }
        Self::with_base(MAILGUN_DEFAULT_API, api_key, domain)
    }

    /// Credentials for the given API base, refused with the first check that
    /// they fail.
    pub fn with_base(api_base: &str, api_key: &str, domain: &str) -> (r: Result<
        Self,
        CredentialsError,
    >)
        ensures
            match r {
                Ok(c) => credentials_check(api_base@, api_key@, domain@) is None && c@ == (
                CredentialsView { api_base: api_base@, api_key: api_key@, domain: domain@ })
                    && c.wf(),
                Err(e) => credentials_check(api_base@, api_key@, domain@) == Some(e),
            },
    {
        let base_len = api_base.unicode_len();
        if !(base_len >= 4 && api_base.get_char(0) == 'h' && api_base.get_char(1) == 't'
            && api_base.get_char(2) == 't' && api_base.get_char(3) == 'p') {
            assert(!starts_with_http(api_base@)) by {
                if base_len >= 4 && api_base@.take(4) == seq!['h', 't', 't', 'p'] {
                    assert(api_base@[1] == api_base@.take(4)[1]);
                    assert(api_base@[2] == api_base@.take(4)[2]);
                    assert(api_base@[3] == api_base@.take(4)[3]);
                }
            }
            return Err(CredentialsError::InvalidApiBase);
        }
        assert(api_base@.take(4) =~= seq!['h', 't', 't', 'p']);
        if !contains_char(api_base, '.') {
            return Err(CredentialsError::InvalidApiBaseFormat);
        }
        if api_key.unicode_len() < MIN_API_KEY_LEN {
            return Err(CredentialsError::InvalidApiKeyLength);
        }
        if !contains_char(domain, '.') {
            return Err(CredentialsError::InvalidDomain);
        }
        Ok(
            Credentials {
                api_base: String::from_str(api_base),
                api_key: String::from_str(api_key),
                domain: String::from_str(domain),
            },
        )
    }

    /// The sending domain.
    pub fn domain(&self) -> (r: &str)
        ensures
            r@ == self@.domain,
    {
        self.domain.as_str()
    }

    /// The API base URL.
    pub fn api_base(&self) -> (r: &str)
        ensures
            r@ == self@.api_base,
    {
        self.api_base.as_str()
    }

    /// The secret API key.
    pub fn api_key(&self) -> (r: &str)
        ensures
            r@ == self@.api_key,
    {
        self.api_key.as_str()
    }
}

} // verus!
