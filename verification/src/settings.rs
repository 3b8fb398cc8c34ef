//! Parameters of a provider update, written `key=value`.

use vstd::prelude::*;
use crate::text::{
    chars_of, find_from, first_index_of, quote, quoted, record_text, spells, tuple_text,
    write_record, write_tuple,
};

verus! {

/// One parameter of a provider update.
#[derive(Debug)]
pub enum Param {
    /// `host=<host>:<domain>`
    Host { host: String, domain: String },
    /// `key=<key>:<domain>`
    ApiKey { key: String, domain: String },
    /// `url=<endpoint>`: the endpoint is taken as it stands.
    Url(String),
}

/// A `Param` as plain character sequences.
pub ghost enum ParamView {
    Host { host: Seq<char>, domain: Seq<char> },
    ApiKey { key: Seq<char>, domain: Seq<char> },
    Url(Seq<char>),
}

impl View for Param {
    type V = ParamView;

    open spec fn view(&self) -> ParamView {
        match self {
            Param::Host { host, domain } => ParamView::Host { host: host@, domain: domain@ },
            Param::ApiKey { key, domain } => ParamView::ApiKey { key: key@, domain: domain@ },
            Param::Url(url) => ParamView::Url(url@),
        }
    }
}

/// Why a parameter was not accepted. Each carries the text at fault.
#[derive(Debug)]
pub enum ParamError {
    /// The text is not of the form that was expected at this place.
    InvalidParamFormat(String),
    /// The key before `=` is none of `host`, `key`, `url`.
    UnknownParam(String),
}

/// A `ParamError` as plain character sequences.
pub ghost enum ParamErrorView {
    InvalidParamFormat(Seq<char>),
    UnknownParam(Seq<char>),
}

impl View for ParamError {
    type V = ParamErrorView;

    open spec fn view(&self) -> ParamErrorView {
        match self {
            ParamError::InvalidParamFormat(text) => ParamErrorView::InvalidParamFormat(text@),
            ParamError::UnknownParam(name) => ParamErrorView::UnknownParam(name@),
        }
    }
}

/// A parse result as plain character sequences.
pub open spec fn param_result_view(r: Result<Param, ParamError>) -> Result<
    ParamView,
    ParamErrorView,
> {
    match r {
        Ok(param) => Ok(param@),
        Err(error) => Err(error@),
    }
}

/// The two parts of `s` around its first `sep`, or nothing where `s` holds
/// no `sep`.
pub open spec fn split_once_at(s: Seq<char>, sep: char) -> Option<(Seq<char>, Seq<char>)> {
    let k = first_index_of(s, sep);
    if 0 <= k < s.len() {
        Some((s.subrange(0, k), s.subrange(k + 1, s.len() as int)))
    } else {
        None
    }
}

/// What the value of `host=` stands for: host and domain around its first
/// colon. A value without a colon is at fault.
pub open spec fn host_of(value: Seq<char>) -> Result<ParamView, ParamErrorView> {
    match split_once_at(value, ':') {
        Some((host, domain)) => Ok(ParamView::Host { host, domain }),
        None => Err(ParamErrorView::InvalidParamFormat(value)),
    }
}

/// What the value of `key=` stands for: key and domain around its first
/// colon. A value without a colon is at fault.
pub open spec fn key_of(value: Seq<char>) -> Result<ParamView, ParamErrorView> {
    match split_once_at(value, ':') {
        Some((key, domain)) => Ok(ParamView::ApiKey { key, domain }),
        None => Err(ParamErrorView::InvalidParamFormat(value)),
    }
}

/// What a parameter text stands for. Key and value lie around the first `=`;
/// a text without `=` is at fault as a whole, an unknown key by its name.
pub open spec fn param_of(s: Seq<char>) -> Result<ParamView, ParamErrorView> {
    match split_once_at(s, '=') {
        None => Err(ParamErrorView::InvalidParamFormat(s)),
        Some((name, value)) => if name == "host"@ {
            host_of(value)
        } else if name == "key"@ {
            key_of(value)
        } else if name == "url"@ {
            Ok(ParamView::Url(value))
        } else {
            Err(ParamErrorView::UnknownParam(name))
        },
    }
}

/// The parts of `s` around its first `sep`, as owned strings.
fn split_once_str(s: &str, sep: char) -> (parts: Option<(String, String)>)
    ensures
        match parts {
            Some((left, right)) => split_once_at(s@, sep) == Some((left@, right@)),
            None => split_once_at(s@, sep) is None,
        },
{
    let chars = chars_of(s);
    let n: usize = chars.len();
    let at = find_from(&chars, 0, sep);
    assert(chars@.subrange(0, n as int) == s@);
    if at == n {
        None
    } else {
        let left = s.substring_char(0, at).to_owned();
        let right = s.substring_char(at + 1, n).to_owned();
        Some((left, right))
    }
}

impl Param {
    /// Reads one parameter of the form `key=value`.
    pub fn try_parse(s: &str) -> (r: Result<Param, ParamError>)
        ensures
            param_result_view(r) == param_of(s@),
    {
        let chars = chars_of(s);
        let n: usize = chars.len();
        let at = find_from(&chars, 0, '=');
        assert(chars@.subrange(0, n as int) == s@);
        if at == n {
            return Err(ParamError::InvalidParamFormat(s.to_owned()));
        }
        let p_value = s.substring_char(at + 1, n);
        if spells(&chars, 0, at, "host") {
            Param::parse_host(p_value)
        } else if spells(&chars, 0, at, "key") {
            Param::parse_key(p_value)
        } else if spells(&chars, 0, at, "url") {
            Ok(Param::Url(p_value.to_owned()))
        } else {
            Err(ParamError::UnknownParam(s.substring_char(0, at).to_owned()))
        }
    }

    /// Reads the value of `host=`.
    pub fn parse_host(value: &str) -> (r: Result<Param, ParamError>)
        ensures
            param_result_view(r) == host_of(value@),
    {
        match split_once_str(value, ':') {
            Some((host, domain)) => Ok(Param::Host { host, domain }),
            None => Err(ParamError::InvalidParamFormat(value.to_owned())),
        }
    }

    /// Reads the value of `key=`.
    pub fn parse_key(value: &str) -> (r: Result<Param, ParamError>)
        ensures
            param_result_view(r) == key_of(value@),
    {
        match split_once_str(value, ':') {
            Some((key, domain)) => Ok(Param::ApiKey { key, domain }),
            None => Err(ParamError::InvalidParamFormat(value.to_owned())),
        }
    }
}

/// A parameter as a line of text: the variant's name and its fields, each
/// field as `quoted` writes it.
pub open spec fn param_text(param: ParamView) -> Seq<char> {
    match param {
        ParamView::Host { host, domain } => record_text(
            "Host"@,
            ("host"@, quoted(host)),
            ("domain"@, quoted(domain)),
        ),
        ParamView::ApiKey { key, domain } => record_text(
            "ApiKey"@,
            ("key"@, quoted(key)),
            ("domain"@, quoted(domain)),
        ),
        ParamView::Url(url) => tuple_text("Url"@, quoted(url)),
    }
}

/// An error as a line of text: the variant's name and the text at fault, as
/// `quoted` writes it.
pub open spec fn param_error_text(error: ParamErrorView) -> Seq<char> {
    match error {
        ParamErrorView::InvalidParamFormat(text) => tuple_text(
            "InvalidParamFormat"@,
            quoted(text),
        ),
        ParamErrorView::UnknownParam(name) => tuple_text("UnknownParam"@, quoted(name)),
    }
}

impl Param {
    /// The parameter as one line of text.
    pub fn to_text(&self) -> (text: String)
        ensures
            text@ == param_text(self@),
    {
        match self {
            Param::Host { host, domain } => {
                let host_text = quote(host.as_str());
                let domain_text = quote(domain.as_str());
                write_record("Host", "host", host_text.as_str(), "domain", domain_text.as_str())
            },
            Param::ApiKey { key, domain } => {
                let key_text = quote(key.as_str());
                let domain_text = quote(domain.as_str());
                write_record("ApiKey", "key", key_text.as_str(), "domain", domain_text.as_str())
            },
            Param::Url(url) => {
                let url_text = quote(url.as_str());
                write_tuple("Url", url_text.as_str())
            },
        }
    }
}

impl ParamError {
    /// The error as one line of text.
    pub fn to_text(&self) -> (text: String)
        ensures
            text@ == param_error_text(self@),
    {
        match self {
            ParamError::InvalidParamFormat(raw) => {
                let raw_text = quote(raw.as_str());
                write_tuple("InvalidParamFormat", raw_text.as_str())
            },
            ParamError::UnknownParam(name) => {
                let name_text = quote(name.as_str());
                write_tuple("UnknownParam", name_text.as_str())
            },
        }
    }
}

} // verus!
