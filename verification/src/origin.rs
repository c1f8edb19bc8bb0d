//! The origin resolver: the origin and the base path of a source URL.
//!
//! The URL itself is parsed by the `url` crate. What this library reads of
//! the parsed URL is held in `UrlParts`, as plain text and numbers, and all
//! that is decided from it is decided here.

use vstd::prelude::*;
use crate::error::LinkError;
use crate::text::{
    append_range, chars_of, ends_with_slash, find_last_piece, has_char, last_piece,
    last_piece_start, lemma_last_piece_start, range_has_char,
};

verus! {

/// `url::ParseError`, the reason for which the `url` crate refuses a text.
/// The library carries it from the parser to where it is mapped and looks at
/// nothing in it.
#[verifier::external_type_specification]
#[verifier::external_body]
pub struct ExParseError(url::ParseError);

/// What the library reads of a parsed URL.
///
/// The URL's text in its parsed form is `before_path`, `path` and
/// `after_path` in a row.
#[derive(Clone, Debug, PartialEq, Eq)]
pub struct UrlParts {
    /// The scheme, without the `:` that follows it.
    pub scheme: String,
    /// The host as text: a domain name or an IP address.
    pub host: Option<String>,
    /// The port, where the URL names one that is not its scheme's default.
    pub port: Option<u16>,
    /// The text of the URL before its path.
    pub before_path: String,
    /// The path.
    pub path: String,
    /// The text of the URL behind its path: query and fragment with their
    /// marks.
    pub after_path: String,
}

/// `UrlParts` as the contracts see it.
pub struct UrlModel {
    pub scheme: Seq<char>,
    pub host: Option<Seq<char>>,
    pub port: Option<u16>,
    pub before_path: Seq<char>,
    pub path: Seq<char>,
    pub after_path: Seq<char>,
}

/// The text of an optional string.
pub open spec fn text_of(s: Option<String>) -> Option<Seq<char>> {
    match s {
        Some(t) => Some(t@),
        None => None,
    }
}

impl View for UrlParts {
    type V = UrlModel;

    open spec fn view(&self) -> UrlModel {
        UrlModel {
            scheme: self.scheme@,
            host: text_of(self.host),
            port: self.port,
            before_path: self.before_path@,
            path: self.path@,
            after_path: self.after_path@,
        }
    }
}

/// What the `url` crate makes of `text`: the parts of the URL that it
/// parses from it, or `None` where it refuses the text.
pub uninterp spec fn parsed_url(text: Seq<char>) -> Option<UrlModel>;

/// Parses `text` with `url::Url::parse` and reads the parts off the result
/// with `scheme`, `host_str`, `port`, `path` and by slicing at
/// `Position::BeforePath` and `Position::AfterPath`.
///
/// Nothing is claimed of the parts but that they depend on `text` alone.
#[verifier::external_body]
fn parse_url(text: &str) -> (r: Result<UrlParts, url::ParseError>)
    ensures
        parsed_url(text@) == match r {
            Ok(parts) => Some(parts@),
            Err(_) => None::<UrlModel>,
        },
{
    let u = url::Url::parse(text)?;
    Ok(
        UrlParts {
            scheme: u.scheme().to_string(),
            host: u.host_str().map(str::to_string),
            port: u.port(),
            before_path: u[..url::Position::BeforePath].to_string(),
            path: u.path().to_string(),
            after_path: u[url::Position::AfterPath..].to_string(),
        },
    )
}

/// Parses a URL.
///
/// Returns the parts of the URL, or `MalformedUrl` where `text` is no
/// absolute URL.
pub fn parse(text: &str) -> (r: Result<UrlParts, LinkError>)
    ensures
        match r {
            Ok(parts) => parsed_url(text@) == Some(parts@),
            Err(e) => parsed_url(text@) is None && e == LinkError::MalformedUrl,
        },
{
    match parse_url(text) {
        Ok(parts) => Ok(parts),
        Err(_) => Err(LinkError::MalformedUrl),
    }
}

/// The scheme and host that a page comes from, with the port where the URL
/// names one.
#[derive(Clone, Debug, PartialEq, Eq)]
pub struct Origin {
    pub scheme: String,
    pub host: String,
    pub port: Option<u16>,
}

/// An `Origin` as the contracts see it.
pub struct OriginModel {
    pub scheme: Seq<char>,
    pub host: Seq<char>,
    pub port: Option<u16>,
}

impl View for Origin {
    type V = OriginModel;

    open spec fn view(&self) -> OriginModel {
        OriginModel { scheme: self.scheme@, host: self.host@, port: self.port }
    }
}

/// The character of a decimal digit.
pub open spec fn digit_char(d: int) -> char {
    if d == 0 {
        '0'
    } else if d == 1 {
        '1'
    } else if d == 2 {
        '2'
    } else if d == 3 {
        '3'
    } else if d == 4 {
        '4'
    } else if d == 5 {
        '5'
    } else if d == 6 {
        '6'
    } else if d == 7 {
        '7'
    } else if d == 8 {
        '8'
    } else {
        '9'
    }
}

/// `n` in decimal digits, without leading zeros.
pub open spec fn decimal(n: nat) -> Seq<char>
    decreases n,
{
    if n < 10 {
        seq![digit_char(n as int)]
    } else {
        decimal(n / 10).push(digit_char((n % 10) as int))
    }
}

impl OriginModel {
    /// Whether the origin names a scheme and a host.
    pub open spec fn wf(self) -> bool {
        self.scheme.len() > 0 && self.host.len() > 0
    }

    /// The origin as the prefix of its URLs: `scheme://host`, followed by
    /// `:` and the port where it has one.
    pub open spec fn prefix(self) -> Seq<char> {
        let head = self.scheme + seq![':', '/', '/'] + self.host;
        match self.port {
            Some(p) => head + seq![':'] + decimal(p as nat),
            None => head,
        }
    }
}

/// The origin of a parsed URL, where it has one: its scheme and its host,
/// with the port where the URL names one. A URL without scheme or without
/// host has none.
pub open spec fn origin_spec(parts: UrlModel) -> Option<OriginModel> {
    match parts.host {
        Some(h) => {
            let origin = OriginModel { scheme: parts.scheme, host: h, port: parts.port };
            if origin.wf() {
                Some(origin)
            } else {
                None
            }
        },
        None => None,
    }
}

/// The last segment of a URL's path: what follows its last `/`.
pub open spec fn file_segment(path: Seq<char>) -> Seq<char> {
    last_piece(path, '/')
}

/// The base path of the URL `url` that parses into `parts`. Where the last
/// segment of the path holds a `.`, it is taken for a file, and the base
/// path is the parsed URL's text without that segment. Else it is `url`.
pub open spec fn base_path_spec(url: Seq<char>, parts: UrlModel) -> Seq<char> {
    if has_char(file_segment(parts.path), '.') {
        parts.before_path + parts.path.subrange(0, last_piece_start(parts.path, '/'))
            + parts.after_path
    } else {
        url
    }
}

/// The decimal digit `d` as a character.
fn digit(d: u16) -> (c: char)
    requires
        d < 10,
    ensures
        c == digit_char(d as int),
{
    if d == 0 {
        '0'
    } else if d == 1 {
        '1'
    } else if d == 2 {
        '2'
    } else if d == 3 {
        '3'
    } else if d == 4 {
        '4'
    } else if d == 5 {
        '5'
    } else if d == 6 {
        '6'
    } else if d == 7 {
        '7'
    } else if d == 8 {
        '8'
    } else {
        '9'
    }
}

/// Appends `n` in decimal to `out`.
fn append_decimal(out: &mut String, n: u16)
    ensures
        final(out)@ == old(out)@ + decimal(n as nat),
    decreases n,
{
    if n >= 10 {
        append_decimal(out, n / 10);
    }
    out.push(digit(n % 10));
    proof {
        let start = old(out)@;
        if n >= 10 {
            assert((start + decimal((n / 10) as nat)).push(digit_char((n % 10) as int)) =~= start
                + decimal(n as nat));
        } else {
            assert(start.push(digit_char(n as int)) =~= start + decimal(n as nat));
        }
    }
}

impl Origin {
    /// The origin as the prefix of its URLs.
    pub fn prefix(&self) -> (out: String)
        ensures
            out@ == self@.prefix(),
    {
        let mut out = self.scheme.clone();
        out.push(':');
        out.push('/');
        out.push('/');
        let host = chars_of(self.host.as_str());
        append_range(&mut out, &host, 0, host.len());
        proof {
            assert(host@.subrange(0, host@.len() as int) =~= host@);
            assert(out@ =~= self.scheme@ + seq![':', '/', '/'] + self.host@);
        }
        match self.port {
            Some(p) => {
                let ghost head = out@;
                out.push(':');
                append_decimal(&mut out, p);
                assert(out@ =~= head + seq![':'] + decimal(p as nat));
            },
            None => {},
        }
        out
    }
}

/// The origin of a parsed URL.
///
/// Returns `MalformedUrl` for a URL without a host or without a scheme.
pub fn origin_of(parts: &UrlParts) -> (r: Result<Origin, LinkError>)
    ensures
        match r {
            Ok(origin) => origin_spec(parts@) == Some(origin@) && origin@.wf(),
            Err(e) => origin_spec(parts@) is None && e == LinkError::MalformedUrl,
        },
{
    let origin = match &parts.host {
        Some(h) => Origin { scheme: parts.scheme.clone(), host: h.clone(), port: parts.port },
        None => {
            return Err(LinkError::MalformedUrl);
        },
    };
    if origin.scheme.as_str().is_empty() || origin.host.as_str().is_empty() {
        return Err(LinkError::MalformedUrl);
    }
    Ok(origin)
}

/// The base path of the URL `url` that parses into `parts`.
pub fn base_path_of(url: &str, parts: &UrlParts) -> (out: String)
    ensures
        out@ == base_path_spec(url@, parts@),
{
    let path = chars_of(parts.path.as_str());
    let start = find_last_piece(&path, '/');
    if range_has_char(&path, start, path.len(), '.') {
        let mut out = parts.before_path.clone();
        append_range(&mut out, &path, 0, start);
        let after = chars_of(parts.after_path.as_str());
        append_range(&mut out, &after, 0, after.len());
        assert(after@.subrange(0, after@.len() as int) =~= after@);
        out
    } else {
        url.to_owned()
    }
}

/// The origin of the URL `url`.
///
/// Returns `MalformedUrl` where `url` does not parse or the URL has no host.
pub fn resolve_origin(url: &str) -> (r: Result<Origin, LinkError>)
    ensures
        match r {
            Ok(origin) => {
                &&& parsed_url(url@) is Some
                &&& origin_spec(parsed_url(url@).unwrap()) == Some(origin@)
                &&& origin@.wf()
            },
            Err(e) => {
                &&& e == LinkError::MalformedUrl
                &&& parsed_url(url@) is None || origin_spec(parsed_url(url@).unwrap()) is None
            },
        },
{
    match parse(url) {
        Ok(parts) => origin_of(&parts),
        Err(e) => Err(e),
    }
}

/// The base path of the URL `url`: the directory that the page lies in.
///
/// Returns `MalformedUrl` where `url` does not parse.
pub fn resolve_base_path(url: &str) -> (r: Result<String, LinkError>)
    ensures
        match r {
            Ok(base) => {
                &&& parsed_url(url@) is Some
                &&& base@ == base_path_spec(url@, parsed_url(url@).unwrap())
            },
            Err(e) => e == LinkError::MalformedUrl && parsed_url(url@) is None,
        },
{
    match parse(url) {
        Ok(parts) => Ok(base_path_of(url, &parts)),
        Err(e) => Err(e),
    }
}

/// Where the last segment of the path holds a `.`, the base path is the
/// parsed URL's text without that segment: the path is cut behind its last
/// `/`, and what stood before and behind the path stays.
pub proof fn lemma_base_path_strips_file(url: Seq<char>, parts: UrlModel)
    requires
        has_char(file_segment(parts.path), '.'),
    ensures
        ({
            let kept = parts.path.subrange(0, last_piece_start(parts.path, '/'));
            &&& base_path_spec(url, parts) == parts.before_path + kept + parts.after_path
            &&& parts.path == kept + file_segment(parts.path)
            &&& kept.len() > 0 ==> kept.last() == '/'
            &&& !has_char(file_segment(parts.path), '/')
        }),
{
    lemma_last_piece_start(parts.path, '/');
    let at = last_piece_start(parts.path, '/');
    assert(parts.path =~= parts.path.subrange(0, at) + file_segment(parts.path));
    if has_char(file_segment(parts.path), '/') {
        let seg = file_segment(parts.path);
        let k = choose|k: int| 0 <= k < seg.len() && seg[k] == '/';
        assert(parts.path[at + k] == '/');
    }
}

/// A URL whose path ends in `/`, or whose last segment holds no `.`, is
/// its own base path.
pub proof fn lemma_base_path_keeps_directory(url: Seq<char>, parts: UrlModel)
    requires
        ends_with_slash(parts.path) || !has_char(file_segment(parts.path), '.'),
    ensures
        base_path_spec(url, parts) == url,
{
    if ends_with_slash(parts.path) {
        assert(file_segment(parts.path) =~= Seq::<char>::empty());
    }
}

} // verus!
