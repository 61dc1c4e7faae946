//! Tunnel credentials and ingress rules.

use base64::engine::general_purpose::{STANDARD, URL_SAFE, URL_SAFE_NO_PAD};
use base64::Engine;
use vstd::prelude::*;
use vstd::string::*;
use crate::base64_text;
use crate::base64_text::Base64;
use crate::text;

verus! {

/// What the tunnel command is started with.
#[derive(Debug, Clone)]
pub struct TunnelConfig {
    pub token: String,
    pub quick_tunnel: bool,
    /// The file with the ingress rules, where it is not the default one.
    pub config_file: Option<String>,
}

/// What the error of `STANDARD.decode` of the `base64` crate says of a text.
pub uninterp spec fn standard_error(text: Seq<char>) -> Seq<char>;

/// What the error of `URL_SAFE.decode` of the `base64` crate says of a text.
pub uninterp spec fn url_safe_error(text: Seq<char>) -> Seq<char>;

/// What the error of `URL_SAFE_NO_PAD.decode` of the `base64` crate says of a
/// text.
pub uninterp spec fn url_safe_no_pad_error(text: Seq<char>) -> Seq<char>;

/// Bytes or an error's text, as values.
pub open spec fn decoded_view(r: Result<Vec<u8>, String>) -> Result<Seq<u8>, Seq<char>> {
    match r {
        Ok(bytes) => Ok(bytes@),
        Err(message) => Err(message@),
    }
}

/// The bytes of a result that is no error.
pub open spec fn ok_view(r: Result<Vec<u8>, String>) -> Option<Seq<u8>> {
    match r {
        Ok(bytes) => Some(bytes@),
        Err(_) => None,
    }
}

/// Calls `STANDARD.decode` of the `base64` crate, which reads exactly the texts
/// that bytes are encoded to: it wants the filling and no bits behind the last
/// byte. What an error says depends on the text alone.
#[verifier::external_body]
fn decode_standard(text: &str) -> (r: Result<Vec<u8>, String>)
    ensures
        ok_view(r) == base64_text::decoded(text@, Base64::Standard),
        r matches Err(e) ==> e@ == standard_error(text@),
{
    STANDARD.decode(text).map_err(|e| e.to_string())
}

/// Calls `URL_SAFE.decode` of the `base64` crate, which reads exactly the texts
/// that bytes are encoded to: it wants the filling and no bits behind the last
/// byte. What an error says depends on the text alone.
#[verifier::external_body]
fn decode_url_safe(text: &str) -> (r: Result<Vec<u8>, String>)
    ensures
        ok_view(r) == base64_text::decoded(text@, Base64::UrlSafe),
        r matches Err(e) ==> e@ == url_safe_error(text@),
{
    URL_SAFE.decode(text).map_err(|e| e.to_string())
}

/// Calls `URL_SAFE_NO_PAD.decode` of the `base64` crate, which reads exactly the
/// texts that bytes are encoded to: it wants no filling and no bits behind the
/// last byte. What an error says depends on the text alone.
#[verifier::external_body]
fn decode_url_safe_no_pad(text: &str) -> (r: Result<Vec<u8>, String>)
    ensures
        ok_view(r) == base64_text::decoded(text@, Base64::UrlSafeNoPad),
        r matches Err(e) ==> e@ == url_safe_no_pad_error(text@),
{
    URL_SAFE_NO_PAD.decode(text).map_err(|e| e.to_string())
}

/// Bytes, or an error where there are none.
pub open spec fn or_error(bytes: Option<Seq<u8>>, error: Seq<char>) -> Result<Seq<u8>, Seq<char>> {
    match bytes {
        Some(b) => Ok(b),
        None => Err(error),
    }
}

/// What a text is in standard base64.
pub open spec fn standard_decoded(text: Seq<char>) -> Result<Seq<u8>, Seq<char>> {
    or_error(base64_text::decoded(text, Base64::Standard), standard_error(text))
}

/// What a text is in base64 for URLs.
pub open spec fn url_safe_decoded(text: Seq<char>) -> Result<Seq<u8>, Seq<char>> {
    or_error(base64_text::decoded(text, Base64::UrlSafe), url_safe_error(text))
}

/// What a text is in base64 for URLs, without filling.
pub open spec fn url_safe_no_pad_decoded(text: Seq<char>) -> Result<Seq<u8>, Seq<char>> {
    or_error(base64_text::decoded(text, Base64::UrlSafeNoPad), url_safe_no_pad_error(text))
}

/// The first of two results that is not an error, or the second error.
pub open spec fn first_decoded(
    first: Result<Seq<u8>, Seq<char>>,
    second: Result<Seq<u8>, Seq<char>>,
) -> Result<Seq<u8>, Seq<char>> {
    if first is Ok {
        first
    } else {
        second
    }
}

/// Picks the first of two results that is not an error, or the second error.
pub fn first_ok(first: Result<Vec<u8>, String>, second: Result<Vec<u8>, String>) -> (r: Result<
    Vec<u8>,
    String,
>)
    ensures
        decoded_view(r) == first_decoded(decoded_view(first), decoded_view(second)),
{
    match first {
        Ok(bytes) => Ok(bytes),
        Err(_) => second,
    }
}

/// The bytes of a tunnel token: the text without the white space around it,
/// in the first base64 variant that reads it.
pub open spec fn token_bytes(token: Seq<char>) -> Result<Seq<u8>, Seq<char>> {
    let t = text::trimmed(token);
    first_decoded(
        standard_decoded(t),
        first_decoded(url_safe_decoded(t), url_safe_no_pad_decoded(t)),
    )
}

/// The bytes of a tunnel secret, in the first base64 variant that reads it.
pub open spec fn secret_decoded(secret: Seq<char>) -> Result<Seq<u8>, Seq<char>> {
    first_decoded(standard_decoded(secret), url_safe_no_pad_decoded(secret))
}

/// White space around a token changes nothing.
pub proof fn law_white_space_around_token(before: Seq<char>, token: Seq<char>, behind: Seq<char>)
    requires
        text::all_white_space(before),
        text::all_white_space(behind),
    ensures
        token_bytes(before + token + behind) == token_bytes(token),
{
    text::lemma_trimmed(before, token, behind);
}

/// A token is read as the bytes that it was encoded from, in each of the three
/// variants and with any white space around it.
pub proof fn law_token_reads_back(
    document: Seq<u8>,
    variant: Base64,
    before: Seq<char>,
    behind: Seq<char>,
)
    requires
        text::all_white_space(before),
        text::all_white_space(behind),
    ensures
        token_bytes(before + base64_text::encoded(document, variant) + behind) == Ok::<
            Seq<u8>,
            Seq<char>,
        >(document),
{
    let t = base64_text::encoded(document, variant);
    law_white_space_around_token(before, t, behind);
    base64_text::lemma_no_white_space(document, variant);
    text::lemma_nothing_trimmed(t);
    base64_text::lemma_no_other(document, variant, Base64::Standard);
    base64_text::lemma_no_other(document, variant, Base64::UrlSafe);
    base64_text::lemma_no_other(document, variant, Base64::UrlSafeNoPad);
    base64_text::lemma_decoded(document, variant);
}

/// A secret is read as the bytes that it was encoded from, in standard base64
/// and in base64 for URLs without filling.
pub proof fn law_secret_reads_back(secret: Seq<u8>, variant: Base64)
    requires
        !(variant is UrlSafe),
    ensures
        secret_decoded(base64_text::encoded(secret, variant)) == Ok::<Seq<u8>, Seq<char>>(secret),
{
    base64_text::lemma_no_other(secret, variant, Base64::Standard);
    base64_text::lemma_no_other(secret, variant, Base64::UrlSafeNoPad);
    base64_text::lemma_decoded(secret, variant);
}

/// Why a token gives no credentials.
#[derive(Debug)]
pub enum TokenError {
    /// The token is no base64.
    Base64(String),
    /// The decoded token is no credentials document.
    Json(String),
}

/// Why a tunnel secret cannot be used.
#[derive(Debug)]
pub enum SecretError {
    /// The secret is no base64.
    Base64(String),
    /// The secret has fewer than 32 bytes.
    TooShort,
}

impl TokenError {
    /// What the error says.
    pub open spec fn spec_message(self) -> Seq<char> {
        match self {
            TokenError::Base64(m) => m@,
            TokenError::Json(m) => m@,
        }
    }

    /// What the error says.
    pub fn message(&self) -> (r: String)
        ensures
            r@ == self.spec_message(),
    {
        match self {
            TokenError::Base64(m) => m.as_str().to_string(),
            TokenError::Json(m) => m.as_str().to_string(),
        }
    }
}

impl SecretError {
    /// What the error says.
    pub open spec fn spec_message(self) -> Seq<char> {
        match self {
            SecretError::Base64(m) => m@,
            SecretError::TooShort => "Tunnel secret too short"@,
        }
    }

    /// What the error says.
    pub fn message(&self) -> (r: String)
        ensures
            r@ == self.spec_message(),
    {
        match self {
            SecretError::Base64(m) => m.as_str().to_string(),
            SecretError::TooShort => "Tunnel secret too short".to_string(),
        }
    }
}

/// The credentials in a tunnel token.
#[derive(Debug, Clone)]
pub struct TokenCreds {
    /// The account tag.
    pub a: String,
    /// The tunnel secret, in base64.
    pub s: String,
    /// The tunnel's id.
    pub t: String,
}

/// Decodes the base64 of a tunnel token.
pub fn decode_token(token: &str) -> (r: Result<Vec<u8>, String>)
    ensures
        decoded_view(r) == token_bytes(token@),
{
    let t = text::trim(token);
    first_ok(decode_standard(t), first_ok(decode_url_safe(t), decode_url_safe_no_pad(t)))
}

/// Whether `r` is what comes of a secret that was decoded to this.
pub open spec fn is_secret(
    decoded: Result<Seq<u8>, Seq<char>>,
    r: Result<Vec<u8>, SecretError>,
) -> bool {
    match decoded {
        Err(message) => r matches Err(SecretError::Base64(m)) && m@ == message,
        Ok(bytes) => if bytes.len() < 32 {
            r == Err::<Vec<u8>, SecretError>(SecretError::TooShort)
        } else {
            r matches Ok(v) && v@ == bytes
        },
    }
}

/// Accepts a decoded secret of at least 32 bytes.
pub fn checked_secret(decoded: Result<Vec<u8>, String>) -> (r: Result<Vec<u8>, SecretError>)
    ensures
        is_secret(decoded_view(decoded), r),
        match decoded {
            Err(message) => r == Err::<Vec<u8>, SecretError>(SecretError::Base64(message)),
            Ok(bytes) => if bytes@.len() < 32 {
                r == Err::<Vec<u8>, SecretError>(SecretError::TooShort)
            } else {
                r == Ok::<Vec<u8>, SecretError>(bytes)
            },
        },
{
    match decoded {
        Err(message) => Err(SecretError::Base64(message)),
        Ok(bytes) => if bytes.len() < 32 {
            Err(SecretError::TooShort)
        } else {
            Ok(bytes)
        },
    }
}

impl TokenCreds {
    /// Reads the credentials in a token. The decoded token is handed to
    /// `parse`, which reads the document {"a": .., "s": .., "t": ..}.
    pub fn from_token<F: FnOnce(Vec<u8>) -> Result<TokenCreds, String>>(
        token: &str,
        parse: F,
    ) -> (r: Result<Self, TokenError>)
        requires
            forall|bytes: Vec<u8>| call_requires(parse, (bytes,)),
        ensures
            match token_bytes(token@) {
                Err(message) => r matches Err(TokenError::Base64(m)) && m@ == message,
                Ok(bytes) => exists|v: Vec<u8>, parsed: Result<TokenCreds, String>|
                    #![trigger call_ensures(parse, (v,), parsed)]
                    {
                        &&& v@ == bytes
                        &&& call_ensures(parse, (v,), parsed)
                        &&& r == match parsed {
                            Ok(creds) => Ok::<Self, TokenError>(creds),
                            Err(e) => Err(TokenError::Json(e)),
                        }
                    },
            },
    {
        match decode_token(token) {
            Err(message) => Err(TokenError::Base64(message)),
            Ok(bytes) => match parse(bytes) {
                Ok(creds) => Ok(creds),
                Err(e) => Err(TokenError::Json(e)),
            },
        }
    }

    /// The bytes of the tunnel secret.
    pub fn secret_bytes(&self) -> (r: Result<Vec<u8>, SecretError>)
        ensures
            is_secret(secret_decoded(self.s@), r),
    {
        checked_secret(
            first_ok(decode_standard(self.s.as_str()), decode_url_safe_no_pad(self.s.as_str())),
        )
    }
}

/// Where requests for a host and path prefix go.
#[derive(Debug)]
pub struct IngressRule {
    /// The host that the rule is for; empty where it is for every host.
    pub hostname: String,
    /// What the path has to start with.
    pub path: String,
    /// The service that answers.
    pub service: String,
}

impl Clone for IngressRule {
    fn clone(&self) -> (r: Self)
        ensures
            r == *self,
    {
        IngressRule {
            hostname: self.hostname.clone(),
            path: self.path.clone(),
            service: self.service.clone(),
        }
    }
}

/// A host without the port behind it.
pub open spec fn without_port(host: Seq<char>) -> Seq<char> {
    match host.index_of_first(':') {
        Some(i) => host.take(i),
        None => host,
    }
}

/// Whether a host, in lower case, is the one that a rule, in lower case, is
/// for. A rule that starts with `*.` is for every host that ends with what
/// stands behind the star.
pub open spec fn host_fits(rule_host: Seq<char>, host: Seq<char>) -> bool {
    if text::starts(rule_host, seq!['*', '.']) {
        text::ends(host, rule_host.skip(1))
    } else {
        host == rule_host
    }
}

/// Whether a path is one that a rule is for.
pub open spec fn path_fits(rule_path: Seq<char>, path: Seq<char>) -> bool {
    rule_path.len() == 0 || text::starts(path, rule_path)
}

/// An ASCII text in lower case.
pub open spec fn ascii_lowercase(s: Seq<char>) -> Seq<char> {
    s.map_values(|c: char| text::ascii_lower(c))
}

/// Tells whether a host in lower case is the one that a rule is for.
pub fn host_matches(rule_host: &str, host: &str) -> (r: bool)
    ensures
        r == host_fits(rule_host@, host@),
{
    proof {
        reveal_strlit("*.");
        assert("*."@ =~= seq!['*', '.']);
    }
    if text::starts_with(rule_host, "*.") {
        text::ends_with_rest(host, rule_host, 1)
    } else {
        text::same_text(rule_host, host)
    }
}

/// Takes the port off a host.
pub fn host_only(host: &str) -> (r: &str)
    ensures
        r@ == without_port(host@),
{
    let chars = text::chars_of(host);
    let n = chars.len();
    let mut i: usize = 0;
    while i < n
        invariant
            i <= n,
            n == chars@.len(),
            chars@ == host@,
            forall|k: int| 0 <= k < i ==> host@[k] != ':',
        decreases n - i,
    {
        if chars[i] == ':' {
            proof {
                host@.index_of_first_ensures(':');
            }
            return host.substring_char(0, i);
        }
        i = i + 1;
    }
    proof {
        host@.index_of_first_ensures(':');
    }
    host
}

impl IngressRule {
    /// Whether the rule is for a request, by the lower-case host names.
    pub open spec fn applies(self, host: Seq<char>, path: Seq<char>) -> bool {
        self.hostname@.len() == 0 || (host_fits(
            text::lowercase(self.hostname@),
            text::lowercase(without_port(host)),
        ) && path_fits(self.path@, path))
    }

    /// Whether the rule is for a request, where both host names are ASCII.
    pub open spec fn applies_ascii(self, host: Seq<char>, path: Seq<char>) -> bool {
        self.hostname@.len() == 0 || (host_fits(
            ascii_lowercase(self.hostname@),
            ascii_lowercase(without_port(host)),
        ) && path_fits(self.path@, path))
    }

    /// Whether the rule is for a request, where the requested host is ASCII.
    pub open spec fn applies_ascii_host(self, host: Seq<char>, path: Seq<char>) -> bool {
        self.hostname@.len() == 0 || (host_fits(
            text::lowercase(self.hostname@),
            ascii_lowercase(without_port(host)),
        ) && path_fits(self.path@, path))
    }

    /// Tells whether the rule is for a request.
    pub fn matches(&self, host: &str, path: &str) -> (r: bool)
        ensures
            r == self.applies(host@, path@),
            vstd::utf8::is_ascii_chars(host@) ==> r == self.applies_ascii_host(host@, path@),
            vstd::utf8::is_ascii_chars(self.hostname@) && vstd::utf8::is_ascii_chars(host@)
                ==> r == self.applies_ascii(host@, path@),
    {
        if self.hostname.as_str().is_empty() {
            return true;
        }
        proof {
            host@.index_of_first_ensures(':');
        }
        let rule_host = text::to_lowercase(self.hostname.as_str());
        let req_host = text::to_lowercase(host_only(host));
        if !host_matches(rule_host.as_str(), req_host.as_str()) {
            return false;
        }
        self.path.as_str().is_empty() || text::starts_with(path, self.path.as_str())
    }

    /// The status that the rule answers with, where it does so by itself.
    pub open spec fn spec_status_code(self) -> Option<u16> {
        let prefix = "http_status:"@;
        if text::starts(self.service@, prefix) {
            parsed_u16(self.service@.skip(prefix.len() as int))
        } else {
            None
        }
    }

    /// The status that the rule answers with, where it does so by itself.
    pub fn status_code(&self) -> (r: Option<u16>)
        ensures
            r == self.spec_status_code(),
    {
        proof {
            reveal_strlit("http_status:");
        }
        if text::starts_with(self.service.as_str(), "http_status:") {
            parse_u16(&text::chars_of(self.service.as_str()), 12)
        } else {
            None
        }
    }
}

/// The number that decimal digits stand for.
pub open spec fn digits_value(s: Seq<char>) -> nat
    decreases s.len(),
{
    if s.len() == 0 {
        0
    } else {
        10 * digits_value(s.drop_last()) + (s.last() as int - '0' as int) as nat
    }
}

/// Whether a text is decimal digits only, and at least one.
pub open spec fn all_digits(s: Seq<char>) -> bool {
    &&& s.len() > 0
    &&& forall|i: int| 0 <= i < s.len() ==> '0' <= #[trigger] s[i] <= '9'
}

/// The 16-bit number that a text stands for: decimal digits, maybe with a plus
/// sign in front.
pub open spec fn parsed_u16(s: Seq<char>) -> Option<u16> {
    let digits = if s.len() > 0 && s[0] == '+' {
        s.skip(1)
    } else {
        s
    };
    if all_digits(digits) && digits_value(digits) <= u16::MAX {
        Some(digits_value(digits) as u16)
    } else {
        None
    }
}

/// Reads the number that the characters from `at` on stand for.
fn parse_u16(s: &Vec<char>, at: usize) -> (r: Option<u16>)
    requires
        at <= s@.len(),
    ensures
        r == parsed_u16(s@.skip(at as int)),
{
    let n = s.len();
    let start = if at < n && s[at] == '+' {
        at + 1
    } else {
        at
    };
    let ghost whole = s@.skip(at as int);
    let ghost digits = s@.skip(start as int);
    proof {
        if start == at + 1 {
            assert(s@.skip(at as int).skip(1) =~= digits);
        }
    }
    if start == n {
        return None;
    }
    let mut value: u32 = 0;
    let mut i: usize = start;
    assert(digits.take(0) =~= Seq::<char>::empty());
    while i < n
        invariant
            start <= i <= n,
            n == s@.len(),
            digits == s@.skip(start as int),
            whole == s@.skip(at as int),
            digits == if whole.len() > 0 && whole[0] == '+' {
                whole.skip(1)
            } else {
                whole
            },
            forall|k: int| 0 <= k < i - start ==> '0' <= #[trigger] digits[k] <= '9',
            value <= 65536,
            value == if digits_value(digits.take(i - start)) <= u16::MAX {
                digits_value(digits.take(i - start)) as int
            } else {
                65536
            },
        decreases n - i,
    {
        let c = s[i];
        assert(digits[i - start] == c);
        if !('0' <= c && c <= '9') {
            return None;
        }
        let d: u32 = c as u32 - '0' as u32;
        let next: u32 = 10 * value + d;
        value = if next > 65535 { 65536 } else { next };
        proof {
            let more = digits.take(i + 1 - start);
            assert(more.drop_last() =~= digits.take(i - start));
        }
        i = i + 1;
    }
    assert(digits.take(n - start) =~= digits);
    if value > 65535 {
        None
    } else {
        Some(value as u16)
    }
}

/// A wildcard rule is for the hosts that end with its domain and the dot in
/// front of it.
pub proof fn law_wildcard(domain: Seq<char>, host: Seq<char>)
    ensures
        host_fits(seq!['*', '.'] + domain, host) == text::ends(host, seq!['.'] + domain),
{
    let rule = seq!['*', '.'] + domain;
    assert(rule.take(2) =~= seq!['*', '.']);
    assert(rule.skip(1) =~= seq!['.'] + domain);
}

/// The port behind the requested host does not matter.
pub proof fn law_port_ignored(
    rule: IngressRule,
    host: Seq<char>,
    port: Seq<char>,
    path: Seq<char>,
)
    requires
        !host.contains(':'),
    ensures
        rule.applies(host + seq![':'] + port, path) == rule.applies(host, path),
{
    let full = host + seq![':'] + port;
    full.index_of_first_ensures(':');
    host.index_of_first_ensures(':');
    assert(full[host.len() as int] == ':');
    assert(full.contains(':'));
    let i = full.index_of_first(':').unwrap();
    assert(i == host.len()) by {
        if i < host.len() {
            assert(host[i] == ':');
            assert(host.contains(':'));
        }
    }
    assert(full.take(i) =~= host);
}

/// The case of ASCII letters in the requested host does not matter, whatever the
/// host of the rule.
pub proof fn law_case_ignored(
    rule: IngressRule,
    host: Seq<char>,
    other: Seq<char>,
    path: Seq<char>,
)
    requires
        ascii_lowercase(host) == ascii_lowercase(other),
    ensures
        rule.applies_ascii_host(host, path) == rule.applies_ascii_host(other, path),
        rule.applies_ascii(host, path) == rule.applies_ascii(other, path),
{
    assert(host.len() == ascii_lowercase(host).len());
    assert(other.len() == ascii_lowercase(other).len());
    assert forall|i: int| 0 <= i < host.len() implies text::ascii_lower(host[i])
        == text::ascii_lower(#[trigger] other[i]) by {
        assert(ascii_lowercase(host)[i] == text::ascii_lower(host[i]));
        assert(ascii_lowercase(other)[i] == text::ascii_lower(other[i]));
    }
    host.index_of_first_ensures(':');
    other.index_of_first_ensures(':');
    assert forall|i: int| 0 <= i < host.len() implies (host[i] == ':') == (#[trigger] other[i]
        == ':') by {
        assert(text::ascii_lower(host[i]) == text::ascii_lower(other[i]));
    }
    match (host.index_of_first(':'), other.index_of_first(':')) {
        (Some(i), Some(j)) => {
            assert(other[i] == ':' && other[j] == ':');
            assert(host[j] == ':');
            assert(i == j);
        },
        (Some(i), None) => {
            assert(other[i] == ':');
            assert(other.contains(':'));
        },
        (None, Some(j)) => {
            assert(other[j] == ':');
            assert(host[j] == ':');
            assert(host.contains(':'));
        },
        (None, None) => {},
    }
    assert(ascii_lowercase(without_port(host)) =~= ascii_lowercase(without_port(other)));
}

/// A rule that is for a path is for every path that starts with it.
pub proof fn law_longer_path(
    rule: IngressRule,
    host: Seq<char>,
    path: Seq<char>,
    rest: Seq<char>,
)
    requires
        rule.applies(host, path),
    ensures
        rule.applies(host, path + rest),
{
    let n = rule.path@.len() as int;
    if rule.hostname@.len() > 0 && n > 0 {
        assert((path + rest).take(n) =~= path.take(n));
    }
}

/// A rule without a host is for every request.
pub proof fn law_catch_all(rule: IngressRule, host: Seq<char>, path: Seq<char>)
    requires
        rule.hostname@.len() == 0,
    ensures
        rule.applies(host, path),
{
}

} // verus!
