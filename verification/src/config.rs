//! The declarative configuration model: listen and connect declarations,
//! label-filter rules, validation, conflict detection, and the grouping of
//! routes into one physical listener per socket address.

use vstd::prelude::*;

verus! {

/// The transport of a listener: plain HTTP or TLS-terminated HTTPS.
#[derive(Clone, Copy, PartialEq, Eq, Structural, Debug)]
pub enum Protocol {
    Http,
    Https,
}

impl Default for Protocol {
    fn default() -> (r: Self)
        ensures
            r == Protocol::Http,
    {
        Protocol::Http
    }
}

/// One action of a label filter, processed first to last.
#[derive(Clone, Copy, PartialEq, Eq, Structural, Debug)]
pub enum ConfigLabelFilterAction {
    /// Keep the series; no further rule or action applies to it.
    Keep,
    /// Drop the series from the output.
    Drop,
    /// Let the emitted value of the series change at most once per
    /// `resolution_millis`; in between, the last emitted value is repeated.
    ReduceTimeResolution { resolution_millis: u64 },
}

impl DeepView for ConfigLabelFilterAction {
    type V = ConfigLabelFilterAction;

    open spec fn deep_view(&self) -> ConfigLabelFilterAction {
        *self
    }
}

/// One filter rule: the sample's values for `source_labels`, joined by
/// `separator`, are matched against `regex` (anchored at both ends before
/// compilation), and on a match the actions run in order.
#[derive(Clone)]
pub struct ConfigLabelFilter {
    pub source_labels: Vec<String>,
    pub separator: String,
    pub regex: String,
    pub actions: Vec<ConfigLabelFilterAction>,
}

/// The mathematical value of a `ConfigLabelFilter`.
pub struct FilterV {
    pub source_labels: Seq<Seq<char>>,
    pub separator: Seq<char>,
    pub regex: Seq<char>,
    pub actions: Seq<ConfigLabelFilterAction>,
}

impl DeepView for ConfigLabelFilter {
    type V = FilterV;

    open spec fn deep_view(&self) -> FilterV {
        FilterV {
            source_labels: self.source_labels.deep_view(),
            separator: self.separator@,
            regex: self.regex@,
            actions: self.actions.deep_view(),
        }
    }
}

/// The label list a filter matches on when it declares none: the series name.
pub fn default_source_labels() -> (r: Vec<String>)
    ensures
        r.deep_view() =~= seq!["__name__"@],
{
    let mut v: Vec<String> = Vec::new();
    v.push("__name__".to_owned());
    v
}

/// The separator joining source label values when a filter declares none.
pub fn default_label_separator() -> (r: String)
    ensures
        r@ == ";"@,
{
    ";".to_owned()
}

/// The components of a parsed URL that the validators read, as plain values.
pub struct UrlParts {
    pub scheme: String,
    pub host: Option<String>,
    pub port: Option<u16>,
    pub username: String,
    pub password: Option<String>,
    pub query: Option<String>,
    pub fragment: Option<String>,
    pub path: String,
}

/// The mathematical value of a `UrlParts`.
pub struct UrlPartsV {
    pub scheme: Seq<char>,
    pub host: Option<Seq<char>>,
    pub port: Option<u16>,
    pub username: Seq<char>,
    pub password: Option<Seq<char>>,
    pub query: Option<Seq<char>>,
    pub fragment: Option<Seq<char>>,
    pub path: Seq<char>,
}

impl DeepView for UrlParts {
    type V = UrlPartsV;

    open spec fn deep_view(&self) -> UrlPartsV {
        UrlPartsV {
            scheme: self.scheme@,
            host: self.host.deep_view(),
            port: self.port,
            username: self.username@,
            password: self.password.deep_view(),
            query: self.query.deep_view(),
            fragment: self.fragment.deep_view(),
            path: self.path@,
        }
    }
}

/// What the URL parser and its component accessors make of a string, by
/// name: a function of the string alone.
pub uninterp spec fn parsed_url(s: Seq<char>) -> Option<UrlPartsV>;

/// Relies on `url::Url::parse` and its component accessors: splits an
/// absolute URL into its components, or rejects it. The outcome is a
/// function of the string alone and is given the name `parsed_url`; the
/// validators below are verified for every value it can take.
#[verifier::external_body]
fn parse_url(s: &str) -> (r: Option<UrlParts>)
    ensures
        r.deep_view() == parsed_url(s@),
{
    let u = url::Url::parse(s).ok()?;
    Some(
        UrlParts {
            scheme: u.scheme().to_string(),
            host: u.host_str().map(|h| h.to_string()),
            port: u.port(),
            username: u.username().to_string(),
            password: u.password().map(|p| p.to_string()),
            query: u.query().map(|q| q.to_string()),
            fragment: u.fragment().map(|f| f.to_string()),
            path: u.path().to_string(),
        },
    )
}

/// What `rustls_pemfile::certs` decodes from the input, by name.
pub uninterp spec fn pem_certs_of(data: Seq<u8>) -> Option<Seq<Seq<u8>>>;

/// What `rustls_pemfile::pkcs8_private_keys` decodes from the input, by name.
pub uninterp spec fn pem_pkcs8_keys_of(data: Seq<u8>) -> Option<Seq<Seq<u8>>>;

/// What `rustls_pemfile::rsa_private_keys` decodes from the input, by name.
pub uninterp spec fn pem_rsa_keys_of(data: Seq<u8>) -> Option<Seq<Seq<u8>>>;

/// What `rustls_pemfile::ec_private_keys` decodes from the input, by name.
pub uninterp spec fn pem_ec_keys_of(data: Seq<u8>) -> Option<Seq<Seq<u8>>>;

/// Relies on `rustls_pemfile::certs`: the DER contents of every CERTIFICATE
/// section of the input, or a decoding error; a function of the bytes alone.
#[verifier::external_body]
fn pem_certificates(data: &Vec<u8>) -> (r: Option<Vec<Vec<u8>>>)
    ensures
        r.deep_view() == pem_certs_of(data@),
{
    let mut cursor = std::io::Cursor::new(data.as_slice());
    rustls_pemfile::certs(&mut cursor).ok()
}

/// Relies on `rustls_pemfile::pkcs8_private_keys`: the DER contents of every
/// PKCS#8 private-key section of the input; a function of the bytes alone.
#[verifier::external_body]
fn pem_pkcs8_keys(data: &Vec<u8>) -> (r: Option<Vec<Vec<u8>>>)
    ensures
        r.deep_view() == pem_pkcs8_keys_of(data@),
{
    let mut cursor = std::io::Cursor::new(data.as_slice());
    rustls_pemfile::pkcs8_private_keys(&mut cursor).ok()
}

/// Relies on `rustls_pemfile::rsa_private_keys`: the DER contents of every
/// RSA private-key section of the input; a function of the bytes alone.
#[verifier::external_body]
fn pem_rsa_keys(data: &Vec<u8>) -> (r: Option<Vec<Vec<u8>>>)
    ensures
        r.deep_view() == pem_rsa_keys_of(data@),
{
    let mut cursor = std::io::Cursor::new(data.as_slice());
    rustls_pemfile::rsa_private_keys(&mut cursor).ok()
}

/// Relies on `rustls_pemfile::ec_private_keys`: the DER contents of every
/// SEC1 EC private-key section of the input; a function of the bytes alone.
#[verifier::external_body]
fn pem_ec_keys(data: &Vec<u8>) -> (r: Option<Vec<Vec<u8>>>)
    ensures
        r.deep_view() == pem_ec_keys_of(data@),
{
    let mut cursor = std::io::Cursor::new(data.as_slice());
    rustls_pemfile::ec_private_keys(&mut cursor).ok()
}

/// Every private key the probed encodings decode from a key file, in the
/// order they are probed.
pub open spec fn spec_all_keys(data: Seq<u8>) -> Seq<Seq<u8>> {
    pem_pkcs8_keys_of(data)->0 + pem_rsa_keys_of(data)->0 + pem_ec_keys_of(data)->0
}

/// A URL that names no usable scheme, credentials, or a fragment.
#[derive(Debug)]
pub enum InvalidURLError {
    /// The text is not a parseable absolute URL.
    UnparseableURL,
    /// The scheme is not one this proxy supports.
    UnsupportedScheme(String),
    AuthenticationUnsupported,
    QueryStringUnsupported,
    FragmentUnsupported,
}

/// Why a certificate file's contents were rejected.
#[derive(Clone, Copy, PartialEq, Eq, Structural, Debug)]
pub enum CertReadIssue {
    Undecodable,
    NoCertificates,
}

/// Why a key file's contents were rejected.
#[derive(Clone, Copy, PartialEq, Eq, Structural, Debug)]
pub enum KeyReadIssue {
    Undecodable,
    /// The probed encodings decoded this many keys in all, not exactly one.
    WrongKeyCount(u128),
}

/// A listen declaration the validator rejects.
#[derive(Debug)]
pub enum ConfigListenOnParseError {
    InvalidURL(InvalidURLError),
    PortMissing,
    PortOutOfBoundsError(u16),
    QueryStringUnsupported,
    CertificateFileRequired,
    KeyFileRequired,
    CertificateFileReadError(CertReadIssue),
    KeyFileReadError(KeyReadIssue),
    SSLOptionsNotAllowed,
}

/// Which check of a listen or connect declaration fails first, if any.
#[derive(Clone, Copy, PartialEq, Eq, Structural, Debug)]
pub enum ListenIssue {
    PortMissing,
    PortOutOfBounds,
    Authentication,
    QueryString,
    Fragment,
    UnsupportedScheme,
    SslOptionsNotAllowed,
    CertificateRequired,
    KeyRequired,
    CertificateUndecodable,
    CertificateEmpty,
    KeyUndecodable,
    KeyWrongCount,
}

pub open spec fn spec_scheme_plain(p: UrlPartsV) -> bool {
    p.scheme == "http"@ || p.scheme.len() == 0
}

pub open spec fn spec_scheme_tls(p: UrlPartsV) -> bool {
    p.scheme == "https"@
}

/// The validation of one listen declaration, in the order the checks run:
/// the port must be present and unprivileged; credentials, query strings and
/// fragments are rejected; a plain listener may carry no TLS material, and a
/// TLS listener must carry a decodable certificate chain with at least one
/// certificate and key material holding exactly one decodable private key.
pub open spec fn spec_listen_issue(
    p: UrlPartsV,
    cert: Option<Seq<u8>>,
    key: Option<Seq<u8>>,
) -> Option<ListenIssue> {
    if p.port is None {
        Some(ListenIssue::PortMissing)
    } else if p.port->0 < 1024 {
        Some(ListenIssue::PortOutOfBounds)
    } else if p.username.len() > 0 || p.password is Some {
        Some(ListenIssue::Authentication)
    } else if p.query is Some {
        Some(ListenIssue::QueryString)
    } else if p.fragment is Some {
        Some(ListenIssue::Fragment)
    } else if spec_scheme_plain(p) {
        if cert is Some || key is Some {
            Some(ListenIssue::SslOptionsNotAllowed)
        } else {
            None
        }
    } else if spec_scheme_tls(p) {
        if cert is None {
            Some(ListenIssue::CertificateRequired)
        } else if key is None {
            Some(ListenIssue::KeyRequired)
        } else if pem_certs_of(cert->0) is None {
            Some(ListenIssue::CertificateUndecodable)
        } else if pem_certs_of(cert->0)->0.len() == 0 {
            Some(ListenIssue::CertificateEmpty)
        } else if pem_pkcs8_keys_of(key->0) is None || pem_rsa_keys_of(key->0) is None
            || pem_ec_keys_of(key->0) is None {
            Some(ListenIssue::KeyUndecodable)
        } else if spec_all_keys(key->0).len() != 1 {
            Some(ListenIssue::KeyWrongCount)
        } else {
            None
        }
    } else {
        Some(ListenIssue::UnsupportedScheme)
    }
}

/// Which error a rejected listen declaration reports for each issue.
pub open spec fn listen_error_matches(
    e: ConfigListenOnParseError,
    issue: ListenIssue,
    p: UrlPartsV,
    key: Option<Seq<u8>>,
) -> bool {
    match issue {
        ListenIssue::PortMissing => e == ConfigListenOnParseError::PortMissing,
        ListenIssue::PortOutOfBounds => e == ConfigListenOnParseError::PortOutOfBoundsError(
            p.port->0,
        ),
        ListenIssue::Authentication => e == ConfigListenOnParseError::InvalidURL(
            InvalidURLError::AuthenticationUnsupported,
        ),
        ListenIssue::QueryString => e == ConfigListenOnParseError::QueryStringUnsupported,
        ListenIssue::Fragment => e == ConfigListenOnParseError::InvalidURL(
            InvalidURLError::FragmentUnsupported,
        ),
        ListenIssue::UnsupportedScheme => match e {
            ConfigListenOnParseError::InvalidURL(InvalidURLError::UnsupportedScheme(s)) => s@
                == p.scheme,
            _ => false,
        },
        ListenIssue::SslOptionsNotAllowed => e == ConfigListenOnParseError::SSLOptionsNotAllowed,
        ListenIssue::CertificateRequired => e == ConfigListenOnParseError::CertificateFileRequired,
        ListenIssue::KeyRequired => e == ConfigListenOnParseError::KeyFileRequired,
        ListenIssue::CertificateUndecodable => e
            == ConfigListenOnParseError::CertificateFileReadError(CertReadIssue::Undecodable),
        ListenIssue::CertificateEmpty => e == ConfigListenOnParseError::CertificateFileReadError(
            CertReadIssue::NoCertificates,
        ),
        ListenIssue::KeyUndecodable => e == ConfigListenOnParseError::KeyFileReadError(
            KeyReadIssue::Undecodable,
        ),
        ListenIssue::KeyWrongCount => match e {
            ConfigListenOnParseError::KeyFileReadError(KeyReadIssue::WrongKeyCount(n)) => n as int
                == spec_all_keys(key->0).len(),
            _ => false,
        },
    }
}

/// One validated listen declaration: the transport, the TLS material where
/// the transport asks for it, the declared host (all interfaces when the URL
/// named none) and port, the handler path, and the two timeouts.
#[derive(Clone)]
pub struct ConfigListenOnInternal {
    pub protocol: Protocol,
    pub certificate: Option<Vec<Vec<u8>>>,
    pub key: Option<Vec<u8>>,
    pub host: String,
    pub port: u16,
    pub handler: String,
    pub header_read_timeout_millis: u64,
    pub request_response_timeout_millis: u64,
}

/// The mathematical value of a `ConfigListenOnInternal`.
pub struct ListenOnV {
    pub protocol: Protocol,
    pub certificate: Option<Seq<Seq<u8>>>,
    pub key: Option<Seq<u8>>,
    pub host: Seq<char>,
    pub port: u16,
    pub handler: Seq<char>,
    pub header_read_timeout_millis: u64,
    pub request_response_timeout_millis: u64,
}

impl DeepView for ConfigListenOnInternal {
    type V = ListenOnV;

    open spec fn deep_view(&self) -> ListenOnV {
        ListenOnV {
            protocol: self.protocol,
            certificate: self.certificate.deep_view(),
            key: self.key.deep_view(),
            host: self.host@,
            port: self.port,
            handler: self.handler@,
            header_read_timeout_millis: self.header_read_timeout_millis,
            request_response_timeout_millis: self.request_response_timeout_millis,
        }
    }
}

/// The value an accepted listen declaration validates to.
pub open spec fn spec_listen_ok(
    p: UrlPartsV,
    cert: Option<Seq<u8>>,
    key: Option<Seq<u8>>,
    header_read_timeout_millis: u64,
    request_response_timeout_millis: u64,
) -> ListenOnV {
    ListenOnV {
        protocol: if spec_scheme_plain(p) {
            Protocol::Http
        } else {
            Protocol::Https
        },
        certificate: if spec_scheme_plain(p) {
            None
        } else {
            Some(pem_certs_of(cert->0)->0)
        },
        key: if spec_scheme_plain(p) {
            None
        } else {
            Some(spec_all_keys(key->0)[0])
        },
        host: match p.host {
            Some(h) => h,
            None => "0.0.0.0"@,
        },
        port: p.port->0,
        handler: p.path,
        header_read_timeout_millis,
        request_response_timeout_millis,
    }
}

/// The full verdict of listen validation on parsed components: the result
/// is an error exactly when some check fails, that error names the first
/// failing check, and on success the validated listener is exactly
/// `spec_listen_ok`.
pub open spec fn listen_result_matches(
    r: Result<ConfigListenOnInternal, ConfigListenOnParseError>,
    p: UrlPartsV,
    cert: Option<Seq<u8>>,
    key: Option<Seq<u8>>,
    header_read_timeout_millis: u64,
    request_response_timeout_millis: u64,
) -> bool {
    let iss = spec_listen_issue(p, cert, key);
    match r {
        Ok(l) => iss is None && l.deep_view() == spec_listen_ok(
            p,
            cert,
            key,
            header_read_timeout_millis,
            request_response_timeout_millis,
        ) && spec_listen_wf(l.deep_view()),
        Err(e) => iss is Some && listen_error_matches(e, iss->0, p, key),
    }
}

/// A validated listener serves TLS exactly when it holds TLS material, and
/// always listens on an unprivileged port.
pub open spec fn spec_listen_wf(l: ListenOnV) -> bool {
    &&& (l.protocol == Protocol::Https <==> l.certificate is Some)
    &&& (l.protocol == Protocol::Https <==> l.key is Some)
    &&& l.port >= 1024
}

fn http_scheme() -> (r: String)
    ensures
        r@ == "http"@,
{
    "http".to_owned()
}

fn https_scheme() -> (r: String)
    ensures
        r@ == "https"@,
{
    "https".to_owned()
}

fn all_interfaces_host() -> (r: String)
    ensures
        r@ == "0.0.0.0"@,
{
    "0.0.0.0".to_owned()
}

/// Validates one listen declaration from its URL components and the contents
/// of the declared certificate and key files (`None` when the file option is
/// absent). Checks run in declaration order, and a listen URL with a
/// privileged port is always rejected with the port-range error.
pub fn validate_listen_parts(
    parts: UrlParts,
    certificate_data: Option<Vec<u8>>,
    key_data: Option<Vec<u8>>,
    header_read_timeout_millis: u64,
    request_response_timeout_millis: u64,
) -> (r: Result<ConfigListenOnInternal, ConfigListenOnParseError>)
    ensures
        listen_result_matches(
            r,
            parts.deep_view(),
            certificate_data.deep_view(),
            key_data.deep_view(),
            header_read_timeout_millis,
            request_response_timeout_millis,
        ),
        parts.port is Some && parts.port->0 < 1024 ==> r == Err::<
            ConfigListenOnInternal,
            ConfigListenOnParseError,
        >(ConfigListenOnParseError::PortOutOfBoundsError(parts.port->0)),
{
    let port: u16 = match parts.port {
        Some(p) => {
            if p < 1024 {
                return Err(ConfigListenOnParseError::PortOutOfBoundsError(p));
            }
            p
        },
        None => {
            return Err(ConfigListenOnParseError::PortMissing);
        },
    };
    if !parts.username.as_str().is_empty() || parts.password.is_some() {
        return Err(
            ConfigListenOnParseError::InvalidURL(InvalidURLError::AuthenticationUnsupported),
        );
    }
    if parts.query.is_some() {
        return Err(ConfigListenOnParseError::QueryStringUnsupported);
    }
    if parts.fragment.is_some() {
        return Err(ConfigListenOnParseError::InvalidURL(InvalidURLError::FragmentUnsupported));
    }
    let host = match parts.host {
        Some(h) => h,
        None => all_interfaces_host(),
    };
    let plain = parts.scheme == http_scheme() || parts.scheme.as_str().is_empty();
    if plain {
        if certificate_data.is_some() || key_data.is_some() {
            return Err(ConfigListenOnParseError::SSLOptionsNotAllowed);
        }
        let l = ConfigListenOnInternal {
            protocol: Protocol::Http,
            certificate: None,
            key: None,
            host,
            port,
            handler: parts.path,
            header_read_timeout_millis,
            request_response_timeout_millis,
        };
        proof {
            assert(spec_listen_issue(
                parts.deep_view(),
                certificate_data.deep_view(),
                key_data.deep_view(),
            ) is None);
            assert(l.deep_view() == spec_listen_ok(
                parts.deep_view(),
                certificate_data.deep_view(),
                key_data.deep_view(),
                header_read_timeout_millis,
                request_response_timeout_millis,
            ));
        }
        return Ok(l);
    }
    if !(parts.scheme == https_scheme()) {
        return Err(
            ConfigListenOnParseError::InvalidURL(InvalidURLError::UnsupportedScheme(parts.scheme)),
        );
    }
    let cert_data = match certificate_data {
        Some(d) => d,
        None => {
            return Err(ConfigListenOnParseError::CertificateFileRequired);
        },
    };
    proof {
        assert(cert_data.deep_view() =~= cert_data@);
    }
    let key_bytes = match key_data {
        Some(d) => d,
        None => {
            return Err(ConfigListenOnParseError::KeyFileRequired);
        },
    };
    proof {
        assert(key_bytes.deep_view() =~= key_bytes@);
    }
    let certs = match pem_certificates(&cert_data) {
        Some(c) => c,
        None => {
            return Err(
                ConfigListenOnParseError::CertificateFileReadError(CertReadIssue::Undecodable),
            );
        },
    };
    if certs.len() == 0 {
        return Err(
            ConfigListenOnParseError::CertificateFileReadError(CertReadIssue::NoCertificates),
        );
    }
    let k1 = match pem_pkcs8_keys(&key_bytes) {
        Some(k) => k,
        None => {
            return Err(ConfigListenOnParseError::KeyFileReadError(KeyReadIssue::Undecodable));
        },
    };
    let k2 = match pem_rsa_keys(&key_bytes) {
        Some(k) => k,
        None => {
            return Err(ConfigListenOnParseError::KeyFileReadError(KeyReadIssue::Undecodable));
        },
    };
    let k3 = match pem_ec_keys(&key_bytes) {
        Some(k) => k,
        None => {
            return Err(ConfigListenOnParseError::KeyFileReadError(KeyReadIssue::Undecodable));
        },
    };
    let total: u128 = k1.len() as u128 + k2.len() as u128 + k3.len() as u128;
    proof {
        assert(spec_all_keys(key_bytes@).len() == k1.deep_view().len() + k2.deep_view().len()
            + k3.deep_view().len());
    }
    if total != 1 {
        return Err(
            ConfigListenOnParseError::KeyFileReadError(KeyReadIssue::WrongKeyCount(total)),
        );
    }
    let mut k1 = k1;
    let mut k2 = k2;
    let mut k3 = k3;
    let key = if k1.len() == 1 {
        proof {
            assert(spec_all_keys(key_bytes@)[0] == k1.deep_view()[0]);
        }
        k1.remove(0)
    } else if k2.len() == 1 {
        proof {
            assert(spec_all_keys(key_bytes@)[0] == k2.deep_view()[0]);
        }
        k2.remove(0)
    } else {
        proof {
            assert(k3.deep_view().len() == 1);
            assert(spec_all_keys(key_bytes@)[0] == k3.deep_view()[0]);
        }
        k3.remove(0)
    };
    let l = ConfigListenOnInternal {
        protocol: Protocol::Https,
        certificate: Some(certs),
        key: Some(key),
        host,
        port,
        handler: parts.path,
        header_read_timeout_millis,
        request_response_timeout_millis,
    };
    proof {
        assert(spec_listen_issue(
            parts.deep_view(),
            certificate_data.deep_view(),
            key_data.deep_view(),
        ) is None);
        assert(l.deep_view() == spec_listen_ok(
            parts.deep_view(),
            certificate_data.deep_view(),
            key_data.deep_view(),
            header_read_timeout_millis,
            request_response_timeout_millis,
        ));
    }
    Ok(l)
}

/// Validates one listen declaration from its URL text: a string the URL
/// parser rejects is an invalid listen URL, and anything it parses receives
/// exactly the `validate_listen_parts` verdict on the parsed components.
pub fn parse_listen_url(
    url: &str,
    certificate_data: Option<Vec<u8>>,
    key_data: Option<Vec<u8>>,
    header_read_timeout_millis: u64,
    request_response_timeout_millis: u64,
) -> (r: Result<ConfigListenOnInternal, ConfigListenOnParseError>)
    ensures
        match parsed_url(url@) {
            None => r == Err::<ConfigListenOnInternal, ConfigListenOnParseError>(
                ConfigListenOnParseError::InvalidURL(InvalidURLError::UnparseableURL),
            ),
            Some(p) => listen_result_matches(
                r,
                p,
                certificate_data.deep_view(),
                key_data.deep_view(),
                header_read_timeout_millis,
                request_response_timeout_millis,
            ),
        },
        r is Ok ==> spec_listen_wf(r->Ok_0.deep_view()),
{
    match parse_url(url) {
        Some(parts) => validate_listen_parts(
            parts,
            certificate_data,
            key_data,
            header_read_timeout_millis,
            request_response_timeout_millis,
        ),
        None => Err(ConfigListenOnParseError::InvalidURL(InvalidURLError::UnparseableURL)),
    }
}

/// The backend a route connects to: its URL as written, and the fetch
/// timeout.
#[derive(Clone)]
pub struct ConfigConnectTo {
    pub url: String,
    pub timeout_millis: u64,
}

/// The mathematical value of a `ConfigConnectTo`.
pub struct ConnectToV {
    pub url: Seq<char>,
    pub timeout_millis: u64,
}

impl DeepView for ConfigConnectTo {
    type V = ConnectToV;

    open spec fn deep_view(&self) -> ConnectToV {
        ConnectToV { url: self.url@, timeout_millis: self.timeout_millis }
    }
}

/// A connect declaration the validator rejects.
#[derive(Debug)]
pub enum ConfigConnectToParseError {
    InvalidURL(InvalidURLError),
}

/// Which check of a connect declaration fails first, if any: connect
/// validation mirrors listen validation without the port rule — credentials,
/// query strings and fragments are forbidden, and the scheme must be `http`
/// or `https`.
pub open spec fn spec_connect_issue(p: UrlPartsV) -> Option<ListenIssue> {
    if p.username.len() > 0 || p.password is Some {
        Some(ListenIssue::Authentication)
    } else if p.query is Some {
        Some(ListenIssue::QueryString)
    } else if p.fragment is Some {
        Some(ListenIssue::Fragment)
    } else if p.scheme == "http"@ || p.scheme == "https"@ {
        None
    } else {
        Some(ListenIssue::UnsupportedScheme)
    }
}

pub open spec fn connect_error_matches(
    e: ConfigConnectToParseError,
    issue: ListenIssue,
    p: UrlPartsV,
) -> bool {
    match issue {
        ListenIssue::Authentication => e == ConfigConnectToParseError::InvalidURL(
            InvalidURLError::AuthenticationUnsupported,
        ),
        ListenIssue::QueryString => e == ConfigConnectToParseError::InvalidURL(
            InvalidURLError::QueryStringUnsupported,
        ),
        ListenIssue::Fragment => e == ConfigConnectToParseError::InvalidURL(
            InvalidURLError::FragmentUnsupported,
        ),
        ListenIssue::UnsupportedScheme => match e {
            ConfigConnectToParseError::InvalidURL(InvalidURLError::UnsupportedScheme(s)) => s@
                == p.scheme,
            _ => false,
        },
        _ => false,
    }
}

/// The full verdict of connect validation on parsed components: the result
/// is an error exactly when some check fails, that error names the first
/// failing check, and on success the route keeps the URL text as written
/// and the given timeout.
pub open spec fn connect_result_matches(
    r: Result<ConfigConnectTo, ConfigConnectToParseError>,
    p: UrlPartsV,
    url_text: Seq<char>,
    timeout_millis: u64,
) -> bool {
    let iss = spec_connect_issue(p);
    match r {
        Ok(c) => iss is None && c.url@ == url_text && c.timeout_millis == timeout_millis,
        Err(e) => iss is Some && connect_error_matches(e, iss->0, p),
    }
}

/// Validates one connect declaration from its URL components; the validated
/// route keeps the URL exactly as written.
pub fn validate_connect_parts(
    parts: UrlParts,
    url_text: &str,
    timeout_millis: u64,
) -> (r: Result<ConfigConnectTo, ConfigConnectToParseError>)
    ensures
        connect_result_matches(r, parts.deep_view(), url_text@, timeout_millis),
{
    if !parts.username.as_str().is_empty() || parts.password.is_some() {
        return Err(
            ConfigConnectToParseError::InvalidURL(InvalidURLError::AuthenticationUnsupported),
        );
    }
    if parts.query.is_some() {
        return Err(ConfigConnectToParseError::InvalidURL(InvalidURLError::QueryStringUnsupported));
    }
    if parts.fragment.is_some() {
        return Err(ConfigConnectToParseError::InvalidURL(InvalidURLError::FragmentUnsupported));
    }
    if parts.scheme == http_scheme() || parts.scheme == https_scheme() {
        return Ok(ConfigConnectTo { url: url_text.to_owned(), timeout_millis });
    }
    Err(ConfigConnectToParseError::InvalidURL(InvalidURLError::UnsupportedScheme(parts.scheme)))
}

/// Validates one connect declaration from its URL text: a string the URL
/// parser rejects is an invalid connect URL, and anything it parses
/// receives exactly the `validate_connect_parts` verdict on the parsed
/// components.
pub fn parse_connect_url(url: &str, timeout_millis: u64) -> (r: Result<
    ConfigConnectTo,
    ConfigConnectToParseError,
>)
    ensures
        match parsed_url(url@) {
            None => r == Err::<ConfigConnectTo, ConfigConnectToParseError>(
                ConfigConnectToParseError::InvalidURL(InvalidURLError::UnparseableURL),
            ),
            Some(p) => connect_result_matches(r, p, url@, timeout_millis),
        },
{
    match parse_url(url) {
        Some(parts) => validate_connect_parts(parts, url, timeout_millis),
        None => Err(ConfigConnectToParseError::InvalidURL(InvalidURLError::UnparseableURL)),
    }
}

/// The header-read timeout a listener gets when it declares none: 5 seconds.
pub fn default_header_read_timeout() -> (r: u64)
    ensures
        r == 5000u64,
{
    5000
}

/// The fetch timeout a backend gets when it declares none: 30 seconds.
pub fn default_timeout() -> (r: u64)
    ensures
        r == 30000u64,
{
    30000
}

/// The request-response timeout a listener gets when it declares none: the
/// default fetch timeout plus 5 seconds.
pub fn default_request_response_timeout() -> (r: u64)
    ensures
        r == 35000u64,
{
    let t = default_timeout();
    t + 5000
}

/// One declared route: a validated listen declaration, the socket address
/// its host and port resolve to (as text, supplied by the resolver), the
/// backend to connect to, the filter list, and the cache TTL (0 disables
/// caching).
pub struct ConfigProxyEntry {
    pub sockaddr: String,
    pub listen_on: ConfigListenOnInternal,
    pub connect_to: ConfigConnectTo,
    pub label_filters: Vec<ConfigLabelFilter>,
    pub cache_duration_millis: u64,
}

/// The mathematical value of a `ConfigProxyEntry`.
pub struct EntryV {
    pub sockaddr: Seq<char>,
    pub listen_on: ListenOnV,
    pub connect_to: ConnectToV,
    pub label_filters: Seq<FilterV>,
    pub cache_duration_millis: u64,
}

impl DeepView for ConfigProxyEntry {
    type V = EntryV;

    open spec fn deep_view(&self) -> EntryV {
        EntryV {
            sockaddr: self.sockaddr@,
            listen_on: self.listen_on.deep_view(),
            connect_to: self.connect_to.deep_view(),
            label_filters: self.label_filters.deep_view(),
            cache_duration_millis: self.cache_duration_millis,
        }
    }
}

/// A whole declared configuration: the routes in declaration order.
pub struct Config {
    pub proxies: Vec<ConfigProxyEntry>,
}

impl DeepView for Config {
    type V = Seq<EntryV>;

    open spec fn deep_view(&self) -> Seq<EntryV> {
        self.proxies.deep_view()
    }
}

/// What two routes may not share.
#[derive(Clone, Copy, PartialEq, Eq, Structural, Debug)]
pub enum ConflictKind {
    /// The same socket address and the same handler path.
    DuplicateHandler,
    /// The same socket address with differing transports.
    ProtocolMismatch,
}

/// A declared configuration the validator rejects as a whole.
#[derive(Clone, Copy, PartialEq, Eq, Structural, Debug)]
pub enum LoadConfigError {
    /// Routes `first` and `second` (1-indexed declaration positions)
    /// conflict.
    ConflictingConfig { first: usize, second: usize, kind: ConflictKind },
    /// Filter `filter` of route `proxy` (both 1-indexed) carries a pattern
    /// that does not compile.
    InvalidActionRegex { proxy: usize, filter: usize },
}

/// Two routes that claim the same handler path on the same socket address.
pub open spec fn handler_conflict(a: EntryV, b: EntryV) -> bool {
    a.sockaddr == b.sockaddr && a.listen_on.handler == b.listen_on.handler
}

pub open spec fn addr_match(a: EntryV, b: EntryV) -> bool {
    a.sockaddr == b.sockaddr
}

/// Two routes that serve differing transports on the same socket address.
pub open spec fn protocol_conflict(a: EntryV, b: EntryV) -> bool {
    addr_match(a, b) && a.listen_on.protocol != b.listen_on.protocol
}

pub open spec fn spec_first_handler_conflict(s: Seq<EntryV>, j: int, i: int) -> Option<int>
    decreases i - j,
{
    if j < 0 || j >= i || i >= s.len() {
        None
    } else if handler_conflict(s[j], s[i]) {
        Some(j)
    } else {
        spec_first_handler_conflict(s, j + 1, i)
    }
}

pub open spec fn spec_first_same_addr(s: Seq<EntryV>, j: int, i: int) -> Option<int>
    decreases i - j,
{
    if j < 0 || j >= i || i >= s.len() {
        None
    } else if addr_match(s[j], s[i]) {
        Some(j)
    } else {
        spec_first_same_addr(s, j + 1, i)
    }
}

/// The first conflict in declaration order: for each route, first a
/// duplicate-handler check against every earlier route, then a transport
/// check against the first earlier route on the same socket address.
pub open spec fn spec_scan_conflicts(s: Seq<EntryV>, i: int) -> Option<(int, int, ConflictKind)>
    decreases s.len() - i,
{
    if i < 0 || i >= s.len() {
        None
    } else if spec_first_handler_conflict(s, 0, i) is Some {
        Some((spec_first_handler_conflict(s, 0, i)->0, i, ConflictKind::DuplicateHandler))
    } else {
        match spec_first_same_addr(s, 0, i) {
            Some(j) => {
                if s[j].listen_on.protocol != s[i].listen_on.protocol {
                    Some((j, i, ConflictKind::ProtocolMismatch))
                } else {
                    spec_scan_conflicts(s, i + 1)
                }
            },
            None => spec_scan_conflicts(s, i + 1),
        }
    }
}

pub open spec fn spec_first_bad_filter(filters: Seq<FilterV>, k: int) -> Option<int>
    decreases filters.len() - k,
{
    if k < 0 || k >= filters.len() {
        None
    } else if !crate::filter::re_valid(crate::filter::spec_anchored(filters[k].regex)) {
        Some(k)
    } else {
        spec_first_bad_filter(filters, k + 1)
    }
}

/// The first filter pattern, in declaration order, that does not compile.
pub open spec fn spec_first_bad_pattern(s: Seq<EntryV>, i: int) -> Option<(int, int)>
    decreases s.len() - i,
{
    if i < 0 || i >= s.len() {
        None
    } else {
        match spec_first_bad_filter(s[i].label_filters, 0) {
            Some(k) => Some((i, k)),
            None => spec_first_bad_pattern(s, i + 1),
        }
    }
}

proof fn lemma_first_handler_none(s: Seq<EntryV>, j: int, i: int)
    requires
        0 <= j <= i,
        i < s.len(),
        spec_first_handler_conflict(s, j, i) is None,
    ensures
        forall|a: int| j <= a < i ==> !handler_conflict(s[a], s[i]),
    decreases i - j,
{
    if j < i {
        lemma_first_handler_none(s, j + 1, i);
    }
}

proof fn lemma_first_handler_some(s: Seq<EntryV>, j: int, i: int)
    requires
        0 <= j,
        spec_first_handler_conflict(s, j, i) is Some,
    ensures
        ({
            let a = spec_first_handler_conflict(s, j, i)->0;
            j <= a < i < s.len() && handler_conflict(s[a], s[i])
        }),
    decreases i - j,
{
    if !(j >= i || i >= s.len()) && !handler_conflict(s[j], s[i]) {
        lemma_first_handler_some(s, j + 1, i);
    }
}

proof fn lemma_first_addr_none(s: Seq<EntryV>, j: int, i: int)
    requires
        0 <= j <= i,
        i < s.len(),
        spec_first_same_addr(s, j, i) is None,
    ensures
        forall|a: int| j <= a < i ==> !addr_match(s[a], s[i]),
    decreases i - j,
{
    if j < i {
        lemma_first_addr_none(s, j + 1, i);
    }
}

proof fn lemma_first_addr_some(s: Seq<EntryV>, j: int, i: int)
    requires
        0 <= j,
        spec_first_same_addr(s, j, i) is Some,
    ensures
        ({
            let a = spec_first_same_addr(s, j, i)->0;
            j <= a < i < s.len() && addr_match(s[a], s[i])
        }),
    decreases i - j,
{
    if !(j >= i || i >= s.len()) && !addr_match(s[j], s[i]) {
        lemma_first_addr_some(s, j + 1, i);
    }
}

proof fn lemma_scan_clean(s: Seq<EntryV>, i: int)
    requires
        0 <= i <= s.len(),
        spec_scan_conflicts(s, i) is None,
        forall|a: int, b: int|
            0 <= a < b < i ==> !handler_conflict(s[a], s[b]) && !protocol_conflict(s[a], s[b]),
    ensures
        forall|a: int, b: int|
            0 <= a < b < s.len() ==> !handler_conflict(s[a], s[b]) && !protocol_conflict(
                s[a],
                s[b],
            ),
    decreases s.len() - i,
{
    if i < s.len() {
        lemma_first_handler_none(s, 0, i);
        assert forall|a: int| 0 <= a < i implies !protocol_conflict(s[a], s[i]) by {
            if addr_match(s[a], s[i]) {
                match spec_first_same_addr(s, 0, i) {
                    Some(j) => {
                        lemma_first_addr_some(s, 0, i);
                        assert(s[j].listen_on.protocol == s[i].listen_on.protocol);
                        if a != j {
                            assert(addr_match(s[a], s[j]) || addr_match(s[j], s[a]));
                            if a < j {
                                assert(!protocol_conflict(s[a], s[j]));
                            } else {
                                assert(!protocol_conflict(s[j], s[a]));
                            }
                        }
                    },
                    None => {
                        lemma_first_addr_none(s, 0, i);
                    },
                }
            }
        }
        lemma_scan_clean(s, i + 1);
    }
}

proof fn lemma_first_handler_minimal(s: Seq<EntryV>, j: int, i: int)
    requires
        0 <= j,
        spec_first_handler_conflict(s, j, i) is Some,
    ensures
        forall|x: int|
            j <= x < spec_first_handler_conflict(s, j, i)->0 ==> !handler_conflict(s[x], s[i]),
    decreases i - j,
{
    if !(j >= i || i >= s.len()) && !handler_conflict(s[j], s[i]) {
        lemma_first_handler_minimal(s, j + 1, i);
    }
}

proof fn lemma_first_addr_minimal(s: Seq<EntryV>, j: int, i: int)
    requires
        0 <= j,
        spec_first_same_addr(s, j, i) is Some,
    ensures
        forall|x: int| j <= x < spec_first_same_addr(s, j, i)->0 ==> !addr_match(s[x], s[i]),
    decreases i - j,
{
    if !(j >= i || i >= s.len()) && !addr_match(s[j], s[i]) {
        lemma_first_addr_minimal(s, j + 1, i);
    }
}

proof fn lemma_step_clean(s: Seq<EntryV>, i: int)
    requires
        0 <= i < s.len(),
        spec_first_handler_conflict(s, 0, i) is None,
        match spec_first_same_addr(s, 0, i) {
            Some(j) => s[j].listen_on.protocol == s[i].listen_on.protocol,
            None => true,
        },
        forall|x: int, y: int|
            0 <= x < y < i ==> !handler_conflict(s[x], s[y]) && !protocol_conflict(s[x], s[y]),
    ensures
        forall|x: int|
            0 <= x < i ==> !handler_conflict(s[x], s[i]) && !protocol_conflict(s[x], s[i]),
{
    lemma_first_handler_none(s, 0, i);
    assert forall|x: int| 0 <= x < i implies !protocol_conflict(s[x], s[i]) by {
        if addr_match(s[x], s[i]) {
            match spec_first_same_addr(s, 0, i) {
                Some(j) => {
                    lemma_first_addr_some(s, 0, i);
                    if x != j {
                        if x < j {
                            assert(!protocol_conflict(s[x], s[j]));
                        } else {
                            assert(!protocol_conflict(s[j], s[x]));
                        }
                    }
                },
                None => {
                    lemma_first_addr_none(s, 0, i);
                },
            }
        }
    }
}

proof fn lemma_scan_first_from(s: Seq<EntryV>, i: int)
    requires
        0 <= i <= s.len(),
        spec_scan_conflicts(s, i) is Some,
        forall|x: int, y: int|
            0 <= x < y < i ==> !handler_conflict(s[x], s[y]) && !protocol_conflict(s[x], s[y]),
    ensures
        ({
            let (a, b, kind) = spec_scan_conflicts(s, i)->0;
            &&& forall|x: int, y: int|
                0 <= x < y < b ==> !handler_conflict(s[x], s[y]) && !protocol_conflict(s[x], s[y])
            &&& (kind == ConflictKind::DuplicateHandler ==> forall|x: int|
                0 <= x < a ==> !handler_conflict(s[x], s[b]))
            &&& (kind == ConflictKind::ProtocolMismatch ==> forall|x: int|
                0 <= x < b ==> !handler_conflict(s[x], s[b]))
            &&& (kind == ConflictKind::ProtocolMismatch ==> forall|x: int|
                0 <= x < a ==> !addr_match(s[x], s[b]))
        }),
    decreases s.len() - i,
{
    if spec_first_handler_conflict(s, 0, i) is Some {
        lemma_first_handler_minimal(s, 0, i);
    } else {
        match spec_first_same_addr(s, 0, i) {
            Some(j) => {
                if s[j].listen_on.protocol != s[i].listen_on.protocol {
                    lemma_first_handler_none(s, 0, i);
                    lemma_first_addr_minimal(s, 0, i);
                } else {
                    lemma_step_clean(s, i);
                    lemma_scan_first_from(s, i + 1);
                }
            },
            None => {
                lemma_step_clean(s, i);
                lemma_scan_first_from(s, i + 1);
            },
        }
    }
}

/// The conflict the scan reports is the first in declaration order: no pair
/// of routes conflicting in either way ends before the reported second
/// position; there, a duplicate-handler offence names the earliest route it
/// conflicts with, and a transport mismatch is reported only when that route
/// conflicts with no earlier route by handler, against the first route on
/// the same socket address.
pub proof fn lemma_scan_reports_first_conflict(s: Seq<EntryV>)
    requires
        spec_scan_conflicts(s, 0) is Some,
    ensures
        ({
            let (a, b, kind) = spec_scan_conflicts(s, 0)->0;
            &&& forall|x: int, y: int|
                0 <= x < y < b ==> !handler_conflict(s[x], s[y]) && !protocol_conflict(s[x], s[y])
            &&& (kind == ConflictKind::DuplicateHandler ==> forall|x: int|
                0 <= x < a ==> !handler_conflict(s[x], s[b]))
            &&& (kind == ConflictKind::ProtocolMismatch ==> forall|x: int|
                0 <= x < b ==> !handler_conflict(s[x], s[b]))
            &&& (kind == ConflictKind::ProtocolMismatch ==> forall|x: int|
                0 <= x < a ==> !addr_match(s[x], s[b]))
        }),
{
    lemma_scan_first_from(s, 0);
}

proof fn lemma_scan_sound(s: Seq<EntryV>, i: int)
    requires
        0 <= i,
        spec_scan_conflicts(s, i) is Some,
    ensures
        ({
            let (a, b, kind) = spec_scan_conflicts(s, i)->0;
            &&& 0 <= a < b < s.len()
            &&& i <= b
            &&& (kind == ConflictKind::DuplicateHandler ==> handler_conflict(s[a], s[b]))
            &&& (kind == ConflictKind::ProtocolMismatch ==> protocol_conflict(s[a], s[b]))
        }),
    decreases s.len() - i,
{
    if !(i >= s.len()) {
        if spec_first_handler_conflict(s, 0, i) is Some {
            lemma_first_handler_some(s, 0, i);
        } else {
            match spec_first_same_addr(s, 0, i) {
                Some(j) => {
                    lemma_first_addr_some(s, 0, i);
                    if s[j].listen_on.protocol == s[i].listen_on.protocol {
                        lemma_scan_sound(s, i + 1);
                    }
                },
                None => {
                    lemma_scan_sound(s, i + 1);
                },
            }
        }
    }
}

#[verifier::loop_isolation(false)]
fn first_bad_filter(filters: &Vec<ConfigLabelFilter>) -> (r: Option<usize>)
    ensures
        match r {
            Some(k) => k < filters.len() && spec_first_bad_filter(filters.deep_view(), 0) == Some(
                k as int,
            ),
            None => spec_first_bad_filter(filters.deep_view(), 0) is None,
        },
{
    let mut k: usize = 0;
    while k < filters.len()
        invariant
            k <= filters.len(),
            spec_first_bad_filter(filters.deep_view(), 0) == spec_first_bad_filter(
                filters.deep_view(),
                k as int,
            ),
        decreases filters.len() - k,
    {
        proof {
            assert(filters.deep_view()[k as int] == filters@[k as int].deep_view());
        }
        let anchored = crate::filter::anchor_pattern(filters[k].regex.as_str());
        if !crate::filter::pattern_compiles(anchored.as_str()) {
            return Some(k);
        }
        k = k + 1;
    }
    None
}

#[verifier::loop_isolation(false)]
fn find_handler_conflict(proxies: &Vec<ConfigProxyEntry>, i: usize) -> (r: Option<usize>)
    requires
        i < proxies.len(),
    ensures
        match r {
            Some(j) => spec_first_handler_conflict(proxies.deep_view(), 0, i as int) == Some(
                j as int,
            ),
            None => spec_first_handler_conflict(proxies.deep_view(), 0, i as int) is None,
        },
{
    let mut j: usize = 0;
    while j < i
        invariant
            j <= i,
            spec_first_handler_conflict(proxies.deep_view(), 0, i as int)
                == spec_first_handler_conflict(proxies.deep_view(), j as int, i as int),
        decreases i - j,
    {
        proof {
            assert(proxies.deep_view()[j as int] == proxies@[j as int].deep_view());
            assert(proxies.deep_view()[i as int] == proxies@[i as int].deep_view());
        }
        if proxies[j].sockaddr == proxies[i].sockaddr && proxies[j].listen_on.handler == proxies[i].listen_on.handler {
            return Some(j);
        }
        j = j + 1;
    }
    None
}

#[verifier::loop_isolation(false)]
fn find_same_addr(proxies: &Vec<ConfigProxyEntry>, i: usize) -> (r: Option<usize>)
    requires
        i < proxies.len(),
    ensures
        match r {
            Some(j) => spec_first_same_addr(proxies.deep_view(), 0, i as int) == Some(j as int),
            None => spec_first_same_addr(proxies.deep_view(), 0, i as int) is None,
        },
{
    let mut j: usize = 0;
    while j < i
        invariant
            j <= i,
            spec_first_same_addr(proxies.deep_view(), 0, i as int) == spec_first_same_addr(
                proxies.deep_view(),
                j as int,
                i as int,
            ),
        decreases i - j,
    {
        proof {
            assert(proxies.deep_view()[j as int] == proxies@[j as int].deep_view());
            assert(proxies.deep_view()[i as int] == proxies@[i as int].deep_view());
        }
        if proxies[j].sockaddr == proxies[i].sockaddr {
            return Some(j);
        }
        j = j + 1;
    }
    None
}

impl Config {
    /// Validates the declared route list as a whole. Every filter pattern
    /// must compile once anchored, no two routes may claim the same handler
    /// path on one socket address, and all routes on one socket address must
    /// agree on transport. The first offence in declaration order is
    /// reported with 1-indexed positions; a configuration with any
    /// conflicting pair is always rejected.
    #[verifier::loop_isolation(false)]
    pub fn validate(&self) -> (r: Result<(), LoadConfigError>)
        ensures
            ({
                let s = self.deep_view();
                match r {
                    Ok(_) => spec_first_bad_pattern(s, 0) is None && spec_scan_conflicts(s, 0)
                        is None,
                    Err(LoadConfigError::InvalidActionRegex { proxy, filter }) =>
                        spec_first_bad_pattern(s, 0) == Some(
                        ((proxy - 1) as int, (filter - 1) as int),
                    ),
                    Err(LoadConfigError::ConflictingConfig { first, second, kind }) =>
                        spec_first_bad_pattern(s, 0) is None && spec_scan_conflicts(s, 0) == Some(
                        ((first - 1) as int, (second - 1) as int, kind),
                    ),
                }
            }),
            (exists|a: int, b: int|
                0 <= a < b < self.deep_view().len() && handler_conflict(
                    self.deep_view()[a],
                    self.deep_view()[b],
                )) ==> r is Err,
            (exists|a: int, b: int|
                0 <= a < b < self.deep_view().len() && protocol_conflict(
                    self.deep_view()[a],
                    self.deep_view()[b],
                )) ==> r is Err,
            match r {
                Err(LoadConfigError::ConflictingConfig { first, second, kind }) => {
                    &&& 1 <= first < second <= self.deep_view().len()
                    &&& (kind == ConflictKind::DuplicateHandler ==> handler_conflict(
                        self.deep_view()[first - 1],
                        self.deep_view()[second - 1],
                    ))
                    &&& (kind == ConflictKind::ProtocolMismatch ==> protocol_conflict(
                        self.deep_view()[first - 1],
                        self.deep_view()[second - 1],
                    ))
                    &&& forall|x: int, y: int|
                        #![trigger handler_conflict(self.deep_view()[x], self.deep_view()[y])]
                        0 <= x < y < second - 1 ==> !handler_conflict(
                            self.deep_view()[x],
                            self.deep_view()[y],
                        ) && !protocol_conflict(self.deep_view()[x], self.deep_view()[y])
                    &&& (kind == ConflictKind::DuplicateHandler ==> forall|x: int|
                        0 <= x < first - 1 ==> !handler_conflict(
                            #[trigger] self.deep_view()[x],
                            self.deep_view()[second - 1],
                        ))
                    &&& (kind == ConflictKind::ProtocolMismatch ==> forall|x: int|
                        0 <= x < first - 1 ==> !addr_match(
                            #[trigger] self.deep_view()[x],
                            self.deep_view()[second - 1],
                        ))
                },
                _ => true,
            },
    {
        let ghost s = self.deep_view();
        let mut i: usize = 0;
        while i < self.proxies.len()
            invariant
                i <= self.proxies.len(),
                spec_first_bad_pattern(s, 0) == spec_first_bad_pattern(s, i as int),
            decreases self.proxies.len() - i,
        {
            proof {
                assert(s[i as int] == self.proxies@[i as int].deep_view());
            }
            match first_bad_filter(&self.proxies[i].label_filters) {
                Some(k) => {
                    return Err(LoadConfigError::InvalidActionRegex { proxy: i + 1, filter: k + 1 });
                },
                None => {},
            }
            i = i + 1;
        }
        let mut i: usize = 0;
        while i < self.proxies.len()
            invariant
                i <= self.proxies.len(),
                spec_first_bad_pattern(s, 0) is None,
                spec_scan_conflicts(s, 0) == spec_scan_conflicts(s, i as int),
            decreases self.proxies.len() - i,
        {
            proof {
                assert(s[i as int] == self.proxies@[i as int].deep_view());
            }
            match find_handler_conflict(&self.proxies, i) {
                Some(j) => {
                    proof {
                        lemma_scan_sound(s, i as int);
                        lemma_scan_reports_first_conflict(s);
                    }
                    return Err(
                        LoadConfigError::ConflictingConfig {
                            first: j + 1,
                            second: i + 1,
                            kind: ConflictKind::DuplicateHandler,
                        },
                    );
                },
                None => {},
            }
            match find_same_addr(&self.proxies, i) {
                Some(j) => {
                    proof {
                        lemma_first_addr_some(s, 0, i as int);
                        assert(s[j as int] == self.proxies@[j as int].deep_view());
                    }
                    if !(self.proxies[j].listen_on.protocol == self.proxies[i].listen_on.protocol) {
                        proof {
                            lemma_scan_sound(s, i as int);
                            lemma_scan_reports_first_conflict(s);
                        }
                        return Err(
                            LoadConfigError::ConflictingConfig {
                                first: j + 1,
                                second: i + 1,
                                kind: ConflictKind::ProtocolMismatch,
                            },
                        );
                    }
                },
                None => {},
            }
            i = i + 1;
        }
        proof {
            assert(spec_scan_conflicts(s, s.len() as int) is None);
            lemma_scan_clean(s, 0);
        }
        Ok(())
    }
}

/// The backend, filter list and cache TTL one handler path serves.
#[derive(Clone)]
pub struct HttpProxyTarget {
    pub connect_to: ConfigConnectTo,
    pub label_filters: Vec<ConfigLabelFilter>,
    pub cache_duration_millis: u64,
}

/// The mathematical value of an `HttpProxyTarget`.
pub struct TargetV {
    pub connect_to: ConnectToV,
    pub label_filters: Seq<FilterV>,
    pub cache_duration_millis: u64,
}

impl DeepView for HttpProxyTarget {
    type V = TargetV;

    open spec fn deep_view(&self) -> TargetV {
        TargetV {
            connect_to: self.connect_to.deep_view(),
            label_filters: self.label_filters.deep_view(),
            cache_duration_millis: self.cache_duration_millis,
        }
    }
}

/// One physical listener: every route declared for one socket address,
/// folded together, each handler path with its own target.
#[derive(Clone)]
pub struct HttpProxy {
    pub protocol: Protocol,
    pub certificate: Option<Vec<Vec<u8>>>,
    pub key: Option<Vec<u8>>,
    pub sockaddr: String,
    pub header_read_timeout_millis: u64,
    pub request_response_timeout_millis: u64,
    pub handlers: Vec<(String, HttpProxyTarget)>,
}

/// The mathematical value of an `HttpProxy`.
pub struct ProxyV {
    pub protocol: Protocol,
    pub certificate: Option<Seq<Seq<u8>>>,
    pub key: Option<Seq<u8>>,
    pub sockaddr: Seq<char>,
    pub header_read_timeout_millis: u64,
    pub request_response_timeout_millis: u64,
    pub handlers: Seq<(Seq<char>, TargetV)>,
}

impl DeepView for HttpProxy {
    type V = ProxyV;

    open spec fn deep_view(&self) -> ProxyV {
        ProxyV {
            protocol: self.protocol,
            certificate: self.certificate.deep_view(),
            key: self.key.deep_view(),
            sockaddr: self.sockaddr@,
            header_read_timeout_millis: self.header_read_timeout_millis,
            request_response_timeout_millis: self.request_response_timeout_millis,
            handlers: self.handlers.deep_view(),
        }
    }
}

pub open spec fn spec_target_of(e: EntryV) -> TargetV {
    TargetV {
        connect_to: e.connect_to,
        label_filters: e.label_filters,
        cache_duration_millis: e.cache_duration_millis,
    }
}

/// The listener a route opens when no other route shares its address yet.
pub open spec fn spec_proxy_of(e: EntryV) -> ProxyV {
    ProxyV {
        protocol: e.listen_on.protocol,
        certificate: e.listen_on.certificate,
        key: e.listen_on.key,
        sockaddr: e.sockaddr,
        header_read_timeout_millis: e.listen_on.header_read_timeout_millis,
        request_response_timeout_millis: e.listen_on.request_response_timeout_millis,
        handlers: seq![(e.listen_on.handler, spec_target_of(e))],
    }
}

pub open spec fn spec_find_proxy(ps: Seq<ProxyV>, addr: Seq<char>, from: int) -> Option<int>
    decreases ps.len() - from,
{
    if from < 0 || from >= ps.len() {
        None
    } else if ps[from].sockaddr == addr {
        Some(from)
    } else {
        spec_find_proxy(ps, addr, from + 1)
    }
}

pub open spec fn spec_find_handler(
    hs: Seq<(Seq<char>, TargetV)>,
    handler: Seq<char>,
    from: int,
) -> Option<int>
    decreases hs.len() - from,
{
    if from < 0 || from >= hs.len() {
        None
    } else if hs[from].0 == handler {
        Some(from)
    } else {
        spec_find_handler(hs, handler, from + 1)
    }
}

/// Folds one route into the listener list: a new address opens a listener,
/// a new handler path joins its listener, and a path already present is
/// left as it was.
pub open spec fn spec_add_route(ps: Seq<ProxyV>, e: EntryV) -> Seq<ProxyV> {
    match spec_find_proxy(ps, e.sockaddr, 0) {
        None => ps.push(spec_proxy_of(e)),
        Some(j) => match spec_find_handler(ps[j].handlers, e.listen_on.handler, 0) {
            Some(_) => ps,
            None => ps.update(
                j,
                ProxyV {
                    handlers: ps[j].handlers.push((e.listen_on.handler, spec_target_of(e))),
                    ..ps[j]
                },
            ),
        },
    }
}

/// The runtime topology a declared route list folds into: one listener per
/// distinct socket address, owning the union of the handler paths declared
/// for it, in declaration order.
pub open spec fn spec_group(s: Seq<EntryV>) -> Seq<ProxyV>
    decreases s.len(),
{
    if s.len() == 0 {
        Seq::empty()
    } else {
        spec_add_route(spec_group(s.drop_last()), s.last())
    }
}

#[verifier::loop_isolation(false)]
fn find_proxy(ps: &Vec<HttpProxy>, addr: &String) -> (r: Option<usize>)
    ensures
        match r {
            Some(j) => j < ps.len() && spec_find_proxy(ps.deep_view(), addr@, 0) == Some(j as int),
            None => spec_find_proxy(ps.deep_view(), addr@, 0) is None,
        },
{
    let mut j: usize = 0;
    while j < ps.len()
        invariant
            j <= ps.len(),
            spec_find_proxy(ps.deep_view(), addr@, 0) == spec_find_proxy(
                ps.deep_view(),
                addr@,
                j as int,
            ),
        decreases ps.len() - j,
    {
        proof {
            assert(ps.deep_view()[j as int] == ps@[j as int].deep_view());
        }
        if ps[j].sockaddr == *addr {
            return Some(j);
        }
        j = j + 1;
    }
    None
}

#[verifier::loop_isolation(false)]
fn find_handler(hs: &Vec<(String, HttpProxyTarget)>, handler: &String) -> (r: Option<usize>)
    ensures
        match r {
            Some(j) => j < hs.len() && spec_find_handler(hs.deep_view(), handler@, 0) == Some(
                j as int,
            ),
            None => spec_find_handler(hs.deep_view(), handler@, 0) is None,
        },
{
    let mut j: usize = 0;
    while j < hs.len()
        invariant
            j <= hs.len(),
            spec_find_handler(hs.deep_view(), handler@, 0) == spec_find_handler(
                hs.deep_view(),
                handler@,
                j as int,
            ),
        decreases hs.len() - j,
    {
        proof {
            assert(hs.deep_view()[j as int] == hs@[j as int].deep_view());
        }
        if hs[j].0 == *handler {
            return Some(j);
        }
        j = j + 1;
    }
    None
}

/// Folds a validated configuration into its runtime topology: the listener
/// list, one physical listener per distinct socket address. A configuration
/// may declare several routes on one address; the listener owns them all,
/// and its transport, TLS material and timeouts come from the first route
/// declared for that address.
#[verifier::loop_isolation(false)]
#[verifier::rlimit(100)]
pub fn group_proxies(config: Config) -> (r: Vec<HttpProxy>)
    ensures
        r.deep_view() == spec_group(config.deep_view()),
{
    let ghost s = config.deep_view();
    let mut out: Vec<HttpProxy> = Vec::new();
    let mut rest = config.proxies;
    let n = rest.len();
    let mut i: usize = 0;
    proof {
        assert(s.take(0) =~= Seq::<EntryV>::empty());
        assert(s.len() == n);
    }
    while rest.len() > 0
        invariant
            s.len() <= usize::MAX,
            i + rest.len() == s.len(),
            rest.deep_view() =~= s.skip(i as int),
            out.deep_view() == spec_group(s.take(i as int)),
        decreases rest.len(),
    {
        let ghost pre = rest.deep_view();
        let e = rest.remove(0);
        proof {
            assert(rest.deep_view() =~= pre.skip(1));
            assert(pre[0] == e.deep_view());
            assert(e.deep_view() == s[i as int]);
            assert(rest.deep_view() =~= s.skip(i as int + 1));
            assert(s.take(i as int + 1).drop_last() =~= s.take(i as int));
            assert(s.take(i as int + 1).last() == s[i as int]);
        }
        let found = find_proxy(&out, &e.sockaddr);
        match found {
            None => {
                let target = HttpProxyTarget {
                    connect_to: e.connect_to,
                    label_filters: e.label_filters,
                    cache_duration_millis: e.cache_duration_millis,
                };
                let mut handlers: Vec<(String, HttpProxyTarget)> = Vec::new();
                handlers.push((e.listen_on.handler, target));
                proof {
                    assert(handlers.deep_view() =~= seq![
                        (s[i as int].listen_on.handler, spec_target_of(s[i as int])),
                    ]);
                }
                let ghost out_pre = out.deep_view();
                out.push(
                    HttpProxy {
                        protocol: e.listen_on.protocol,
                        certificate: e.listen_on.certificate,
                        key: e.listen_on.key,
                        sockaddr: e.sockaddr,
                        header_read_timeout_millis: e.listen_on.header_read_timeout_millis,
                        request_response_timeout_millis: e.listen_on.request_response_timeout_millis,
                        handlers,
                    },
                );
                proof {
                    assert(out.deep_view() =~= out_pre.push(spec_proxy_of(s[i as int])));
                }
            },
            Some(j) => {
                let present = find_handler(&out[j].handlers, &e.listen_on.handler);
                match present {
                    Some(_) => {},
                    None => {
                        let target = HttpProxyTarget {
                            connect_to: e.connect_to,
                            label_filters: e.label_filters,
                            cache_duration_millis: e.cache_duration_millis,
                        };
                        let ghost out_pre = out.deep_view();
                        proof {
                            assert(out_pre[j as int] == out@[j as int].deep_view());
                        }
                        let slot = &mut out[j];
                        slot.handlers.push((e.listen_on.handler, target));
                        proof {
                            assert(out.deep_view()[j as int].handlers =~= out_pre[j as int].handlers
                                .push((s[i as int].listen_on.handler, spec_target_of(s[i as int]))));
                            assert(out.deep_view() =~= out_pre.update(
                                j as int,
                                ProxyV {
                                    handlers: out_pre[j as int].handlers.push(
                                        (s[i as int].listen_on.handler, spec_target_of(s[i as int])),
                                    ),
                                    ..out_pre[j as int]
                                },
                            ));
                        }
                    },
                }
            },
        }
        i = i + 1;
    }
    proof {
        assert(s.take(s.len() as int) =~= s);
    }
    out
}

impl InvalidURLError {
    /// What this rejection says of the URL.
    pub open spec fn spec_message(&self) -> Seq<char> {
        match self {
            InvalidURLError::UnparseableURL => "the URL cannot be parsed"@,
            InvalidURLError::UnsupportedScheme(s) => "the "@ + s@
                + " protocol is not supported by this program"@,
            InvalidURLError::AuthenticationUnsupported =>
                "authentication is currently not supported"@,
            InvalidURLError::QueryStringUnsupported => "query strings may not be specified"@,
            InvalidURLError::FragmentUnsupported => "fragments may not be specified"@,
        }
    }

    /// Renders the rejection for a human reader.
    pub fn message(&self) -> (r: String)
        ensures
            r@ == self.spec_message(),
    {
        match self {
            InvalidURLError::UnparseableURL => "the URL cannot be parsed".to_owned(),
            InvalidURLError::UnsupportedScheme(s) => {
                let mut out = "the ".to_owned();
                out.append(s.as_str());
                out.append(" protocol is not supported by this program");
                out
            },
            InvalidURLError::AuthenticationUnsupported => {
                "authentication is currently not supported".to_owned()
            },
            InvalidURLError::QueryStringUnsupported => {
                "query strings may not be specified".to_owned()
            },
            InvalidURLError::FragmentUnsupported => "fragments may not be specified".to_owned(),
        }
    }
}

impl ConfigListenOnParseError {
    /// What this rejection says of the listen declaration.
    pub open spec fn spec_message(&self) -> Seq<char> {
        match self {
            ConfigListenOnParseError::InvalidURL(e) => "listen URL not valid: "@
                + e.spec_message(),
            ConfigListenOnParseError::PortMissing => "port missing from listen URL"@,
            ConfigListenOnParseError::PortOutOfBoundsError(p) =>
                "port in listen URL out of bounds: "@ + crate::text::spec_decimal(*p as u64),
            ConfigListenOnParseError::QueryStringUnsupported =>
                "query strings may not be specified in listen URL"@,
            ConfigListenOnParseError::CertificateFileRequired =>
                "certificate_file is required when listen protocol is https"@,
            ConfigListenOnParseError::KeyFileRequired =>
                "key_file is required when listen protocol is https"@,
            ConfigListenOnParseError::CertificateFileReadError(issue) =>
                "could not read certificate file: "@ + (match issue {
                CertReadIssue::Undecodable => "the file does not decode as PEM"@,
                CertReadIssue::NoCertificates => "the file contains no certificates"@,
            }),
            ConfigListenOnParseError::KeyFileReadError(issue) => "could not read key file: "@
                + (match issue {
                KeyReadIssue::Undecodable => "the file does not decode as PEM"@,
                KeyReadIssue::WrongKeyCount(n) => "the file contains "@
                    + crate::text::spec_decimal_u128(*n)
                    + " keys whereas it should contain only 1"@,
            }),
            ConfigListenOnParseError::SSLOptionsNotAllowed =>
                "options certificate_file and key_file are not supported when listen protocol is http"@,
        }
    }

    /// Renders the rejection for a human reader.
    pub fn message(&self) -> (r: String)
        ensures
            r@ == self.spec_message(),
    {
        match self {
            ConfigListenOnParseError::InvalidURL(e) => {
                let mut out = "listen URL not valid: ".to_owned();
                let inner = e.message();
                out.append(inner.as_str());
                out
            },
            ConfigListenOnParseError::PortMissing => "port missing from listen URL".to_owned(),
            ConfigListenOnParseError::PortOutOfBoundsError(p) => {
                let mut out = "port in listen URL out of bounds: ".to_owned();
                let digits = crate::text::decimal_string(*p as u64);
                out.append(digits.as_str());
                out
            },
            ConfigListenOnParseError::QueryStringUnsupported => {
                "query strings may not be specified in listen URL".to_owned()
            },
            ConfigListenOnParseError::CertificateFileRequired => {
                "certificate_file is required when listen protocol is https".to_owned()
            },
            ConfigListenOnParseError::KeyFileRequired => {
                "key_file is required when listen protocol is https".to_owned()
            },
            ConfigListenOnParseError::CertificateFileReadError(issue) => {
                let mut out = "could not read certificate file: ".to_owned();
                match issue {
                    CertReadIssue::Undecodable => {
                        out.append("the file does not decode as PEM");
                    },
                    CertReadIssue::NoCertificates => {
                        out.append("the file contains no certificates");
                    },
                }
                out
            },
            ConfigListenOnParseError::KeyFileReadError(issue) => {
                let mut out = "could not read key file: ".to_owned();
                match issue {
                    KeyReadIssue::Undecodable => {
                        out.append("the file does not decode as PEM");
                    },
                    KeyReadIssue::WrongKeyCount(n) => {
                        out.append("the file contains ");
                        let digits = crate::text::decimal_string_u128(*n);
                        out.append(digits.as_str());
                        out.append(" keys whereas it should contain only 1");
                    },
                }
                out
            },
            ConfigListenOnParseError::SSLOptionsNotAllowed => {
                "options certificate_file and key_file are not supported when listen protocol is http".to_owned()
            },
        }
    }
}

impl ConfigConnectToParseError {
    /// What this rejection says of the connect declaration.
    pub open spec fn spec_message(&self) -> Seq<char> {
        match self {
            ConfigConnectToParseError::InvalidURL(e) => "connect URL not valid: "@
                + e.spec_message(),
        }
    }

    /// Renders the rejection for a human reader.
    pub fn message(&self) -> (r: String)
        ensures
            r@ == self.spec_message(),
    {
        match self {
            ConfigConnectToParseError::InvalidURL(e) => {
                let mut out = "connect URL not valid: ".to_owned();
                let inner = e.message();
                out.append(inner.as_str());
                out
            },
        }
    }
}

impl LoadConfigError {
    /// What this rejection says of the configuration, with the declaration
    /// positions 1-indexed for human consumption.
    pub open spec fn spec_message(&self) -> Seq<char> {
        match self {
            LoadConfigError::ConflictingConfig { first, second, kind } => match kind {
                ConflictKind::DuplicateHandler => "proxy "@ + crate::text::spec_decimal(
                    *first as u64,
                )
                    + " in configuration proxies list contains the same host, port and handler as proxy "@
                    + crate::text::spec_decimal(*second as u64)
                    + "; two proxies cannot listen on the same HTTP handler simultaneously"@,
                ConflictKind::ProtocolMismatch => "proxy "@ + crate::text::spec_decimal(
                    *second as u64,
                ) + " in configuration proxies list uses a protocol conflicting with proxy "@
                    + crate::text::spec_decimal(*first as u64) + " listening on the same host and port; the same listening address cannot serve both HTTP and HTTPS at the same time"@,
            },
            LoadConfigError::InvalidActionRegex { proxy, filter } =>
                "invalid action regular expression: proxy "@ + crate::text::spec_decimal(
                *proxy as u64,
            ) + ", filter "@ + crate::text::spec_decimal(*filter as u64),
        }
    }

    /// Renders the rejection for a human reader.
    pub fn message(&self) -> (r: String)
        ensures
            r@ == self.spec_message(),
    {
        match self {
            LoadConfigError::ConflictingConfig { first, second, kind } => match kind {
                ConflictKind::DuplicateHandler => {
                    let mut out = "proxy ".to_owned();
                    let a = crate::text::decimal_string(*first as u64);
                    out.append(a.as_str());
                    out.append(
                        " in configuration proxies list contains the same host, port and handler as proxy ",
                    );
                    let b = crate::text::decimal_string(*second as u64);
                    out.append(b.as_str());
                    out.append(
                        "; two proxies cannot listen on the same HTTP handler simultaneously",
                    );
                    out
                },
                ConflictKind::ProtocolMismatch => {
                    let mut out = "proxy ".to_owned();
                    let b = crate::text::decimal_string(*second as u64);
                    out.append(b.as_str());
                    out.append(
                        " in configuration proxies list uses a protocol conflicting with proxy ",
                    );
                    let a = crate::text::decimal_string(*first as u64);
                    out.append(a.as_str());
                    out.append(
                        " listening on the same host and port; the same listening address cannot serve both HTTP and HTTPS at the same time",
                    );
                    out
                },
            },
            LoadConfigError::InvalidActionRegex { proxy, filter } => {
                let mut out = "invalid action regular expression: proxy ".to_owned();
                let a = crate::text::decimal_string(*proxy as u64);
                out.append(a.as_str());
                out.append(", filter ");
                let b = crate::text::decimal_string(*filter as u64);
                out.append(b.as_str());
                out
            },
        }
    }
}

/// No two handler entries of one listener claim the same path.
pub open spec fn handlers_unique(hs: Seq<(Seq<char>, TargetV)>) -> bool {
    forall|a: int, b: int| 0 <= a < b < hs.len() ==> hs[a].0 != hs[b].0
}

/// The runtime-topology invariant: at most one listener per distinct socket
/// address, and within each listener at most one target per handler path.
pub open spec fn spec_topology_wf(ps: Seq<ProxyV>) -> bool {
    &&& forall|a: int, b: int| 0 <= a < b < ps.len() ==> ps[a].sockaddr != ps[b].sockaddr
    &&& forall|j: int| 0 <= j < ps.len() ==> handlers_unique(#[trigger] ps[j].handlers)
}

proof fn lemma_find_proxy_none(ps: Seq<ProxyV>, addr: Seq<char>, from: int)
    requires
        0 <= from,
        spec_find_proxy(ps, addr, from) is None,
    ensures
        forall|j: int| from <= j < ps.len() ==> ps[j].sockaddr != addr,
    decreases ps.len() - from,
{
    if from < ps.len() {
        lemma_find_proxy_none(ps, addr, from + 1);
    }
}

proof fn lemma_find_handler_none(hs: Seq<(Seq<char>, TargetV)>, handler: Seq<char>, from: int)
    requires
        0 <= from,
        spec_find_handler(hs, handler, from) is None,
    ensures
        forall|j: int| from <= j < hs.len() ==> hs[j].0 != handler,
    decreases hs.len() - from,
{
    if from < hs.len() {
        lemma_find_handler_none(hs, handler, from + 1);
    }
}

proof fn lemma_find_proxy_some(ps: Seq<ProxyV>, addr: Seq<char>, from: int)
    requires
        0 <= from,
        spec_find_proxy(ps, addr, from) is Some,
    ensures
        ({
            let j = spec_find_proxy(ps, addr, from)->0;
            from <= j < ps.len() && ps[j].sockaddr == addr
        }),
    decreases ps.len() - from,
{
    if !(from >= ps.len()) && ps[from].sockaddr != addr {
        lemma_find_proxy_some(ps, addr, from + 1);
    }
}

proof fn lemma_add_route_wf(ps: Seq<ProxyV>, e: EntryV)
    requires
        spec_topology_wf(ps),
    ensures
        spec_topology_wf(spec_add_route(ps, e)),
{
    match spec_find_proxy(ps, e.sockaddr, 0) {
        None => {
            lemma_find_proxy_none(ps, e.sockaddr, 0);
            let out = ps.push(spec_proxy_of(e));
            assert forall|a: int, b: int| 0 <= a < b < out.len() implies out[a].sockaddr
                != out[b].sockaddr by {
                if b < ps.len() {
                    assert(out[a] == ps[a] && out[b] == ps[b]);
                } else {
                    assert(out[a] == ps[a] && out[b] == spec_proxy_of(e));
                }
            }
            assert forall|j: int| 0 <= j < out.len() implies handlers_unique(
                #[trigger] out[j].handlers,
            ) by {
                if j < ps.len() {
                    assert(out[j] == ps[j]);
                } else {
                    assert(out[j].handlers.len() == 1);
                }
            }
        },
        Some(j) => {
            lemma_find_proxy_some(ps, e.sockaddr, 0);
            match spec_find_handler(ps[j].handlers, e.listen_on.handler, 0) {
                Some(_) => {},
                None => {
                    lemma_find_handler_none(ps[j].handlers, e.listen_on.handler, 0);
                    let updated = ProxyV {
                        handlers: ps[j].handlers.push((e.listen_on.handler, spec_target_of(e))),
                        ..ps[j]
                    };
                    let out = ps.update(j, updated);
                    assert forall|a: int, b: int| 0 <= a < b < out.len() implies out[a].sockaddr
                        != out[b].sockaddr by {
                        assert(out[a].sockaddr == ps[a].sockaddr);
                        assert(out[b].sockaddr == ps[b].sockaddr);
                    }
                    assert forall|k: int| 0 <= k < out.len() implies handlers_unique(
                        #[trigger] out[k].handlers,
                    ) by {
                        if k != j {
                            assert(out[k] == ps[k]);
                        } else {
                            let hs = ps[j].handlers;
                            let hs2 = out[j].handlers;
                            assert forall|a: int, b: int|
                                0 <= a < b < hs2.len() implies hs2[a].0 != hs2[b].0 by {
                                if b < hs.len() {
                                    assert(hs2[a] == hs[a] && hs2[b] == hs[b]);
                                } else {
                                    assert(hs2[a] == hs[a] && hs2[b].0 == e.listen_on.handler);
                                }
                            }
                        }
                    }
                },
            }
        },
    }
}

/// An entry's (socket address, handler path) pair stands somewhere in the
/// listener list.
pub open spec fn spec_topology_covers(ps: Seq<ProxyV>, e: EntryV) -> bool {
    exists|j: int, k: int|
        0 <= j < ps.len() && 0 <= k < ps[j].handlers.len() && ps[j].sockaddr == e.sockaddr && ps[
            j
        ].handlers[k].0 == e.listen_on.handler
}

proof fn lemma_add_route_covers_new(ps: Seq<ProxyV>, e: EntryV)
    ensures
        spec_topology_covers(spec_add_route(ps, e), e),
{
    let out = spec_add_route(ps, e);
    match spec_find_proxy(ps, e.sockaddr, 0) {
        None => {
            let j = ps.len() as int;
            assert(out[j] == spec_proxy_of(e));
            assert(out[j].handlers[0].0 == e.listen_on.handler);
        },
        Some(j) => {
            lemma_find_proxy_some(ps, e.sockaddr, 0);
            match spec_find_handler(ps[j].handlers, e.listen_on.handler, 0) {
                Some(k) => {
                    lemma_find_handler_some(ps[j].handlers, e.listen_on.handler, 0);
                    assert(out[j].handlers[k].0 == e.listen_on.handler);
                },
                None => {
                    let k = ps[j].handlers.len() as int;
                    assert(out[j].handlers[k].0 == e.listen_on.handler);
                },
            }
        },
    }
}

proof fn lemma_add_route_preserves_cover(ps: Seq<ProxyV>, e: EntryV, covered: EntryV)
    requires
        spec_topology_covers(ps, covered),
    ensures
        spec_topology_covers(spec_add_route(ps, e), covered),
{
    let (j, k) = choose|j: int, k: int|
        0 <= j < ps.len() && 0 <= k < ps[j].handlers.len() && ps[j].sockaddr == covered.sockaddr
            && ps[j].handlers[k].0 == covered.listen_on.handler;
    let out = spec_add_route(ps, e);
    match spec_find_proxy(ps, e.sockaddr, 0) {
        None => {
            assert(out[j] == ps[j]);
            assert(out[j].handlers[k].0 == covered.listen_on.handler);
        },
        Some(j2) => {
            lemma_find_proxy_some(ps, e.sockaddr, 0);
            match spec_find_handler(ps[j2].handlers, e.listen_on.handler, 0) {
                Some(_) => {},
                None => {
                    if j == j2 {
                        assert(out[j].handlers[k] == ps[j].handlers[k]);
                    } else {
                        assert(out[j] == ps[j]);
                    }
                    assert(out[j].handlers[k].0 == covered.listen_on.handler);
                },
            }
        },
    }
}

proof fn lemma_find_handler_some(hs: Seq<(Seq<char>, TargetV)>, handler: Seq<char>, from: int)
    requires
        0 <= from,
        spec_find_handler(hs, handler, from) is Some,
    ensures
        ({
            let k = spec_find_handler(hs, handler, from)->0;
            from <= k < hs.len() && hs[k].0 == handler
        }),
    decreases hs.len() - from,
{
    if !(from >= hs.len()) && hs[from].0 != handler {
        lemma_find_handler_some(hs, handler, from + 1);
    }
}

/// The topology a route list folds into is complete: every declared route's
/// (socket address, handler path) pair stands in it.
pub proof fn lemma_group_complete(s: Seq<EntryV>)
    ensures
        forall|i: int| 0 <= i < s.len() ==> spec_topology_covers(spec_group(s), #[trigger] s[i]),
    decreases s.len(),
{
    if s.len() > 0 {
        lemma_group_complete(s.drop_last());
        let prev = spec_group(s.drop_last());
        lemma_add_route_covers_new(prev, s.last());
        assert forall|i: int| 0 <= i < s.len() implies spec_topology_covers(
            spec_group(s),
            #[trigger] s[i],
        ) by {
            if i < s.len() - 1 {
                assert(s.drop_last()[i] == s[i]);
                lemma_add_route_preserves_cover(prev, s.last(), s[i]);
            }
        }
    }
}

/// The topology a route list folds into keeps the data model's invariants:
/// one listener per distinct socket address, and within a listener one
/// target per handler path — whatever the declared list was.
pub proof fn lemma_group_topology_wf(s: Seq<EntryV>)
    ensures
        spec_topology_wf(spec_group(s)),
    decreases s.len(),
{
    if s.len() == 0 {
        assert(spec_group(s).len() == 0);
    } else {
        lemma_group_topology_wf(s.drop_last());
        lemma_add_route_wf(spec_group(s.drop_last()), s.last());
    }
}

} // verus!
