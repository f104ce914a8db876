//! The agent's own client: the base address it talks to, the request it
//! sends for a path, and how it reads the reply. The socket work is left to
//! the caller.
use vstd::prelude::*;
use crate::procfs::{SPLIT_WORDS, pieces, split_pieces};
use crate::text::{chars_of, is_prefix, parse_u64, push_all, push_decimal, decimal, starts_with_chars, string_of, u64_of};

verus! {

#[verifier::external_type_specification]
#[verifier::external_body]
pub struct ExUrl(url::Url);

#[verifier::external_type_specification]
#[verifier::external_body]
pub struct ExParseError(url::ParseError);

/// Relies on `url::Url::parse`: parses an absolute URL, or returns an error
/// when the text is not one.
#[verifier::external_body]
fn parse_url(s: &str) -> (r: Result<url::Url, url::ParseError>) {
    url::Url::parse(s)
}

/// Relies on `url::Url::host_str`: the URL's host as text, if it has one.
#[verifier::external_body]
fn url_host(u: &url::Url) -> (r: Option<String>) {
    u.host_str().map(|h| h.to_string())
}

/// Relies on `url::Url::port_or_known_default`: the explicit port, else the
/// default port of a known scheme.
#[verifier::external_body]
fn url_port(u: &url::Url) -> (r: Option<u16>) {
    u.port_or_known_default()
}

/// Relies on `url::Url::path`: the URL's path, percent-encoded.
#[verifier::external_body]
fn url_path(u: &url::Url) -> (r: String) {
    u.path().to_string()
}

/// `s` without its trailing slashes.
pub open spec fn trim_slashes(s: Seq<char>) -> Seq<char>
    decreases s.len(),
{
    if s.len() > 0 && s.last() == '/' {
        trim_slashes(s.drop_last())
    } else {
        s
    }
}

/// `http://`.
pub open spec fn http_scheme() -> Seq<char> {
    seq!['h', 't', 't', 'p', ':', '/', '/']
}

/// `https://`.
pub open spec fn https_scheme() -> Seq<char> {
    seq!['h', 't', 't', 'p', 's', ':', '/', '/']
}

/// The base URL for a listen address: the address itself when it already
/// starts with `http://` or `https://`, else with `http://` in front; in
/// either case without trailing slashes.
pub open spec fn base_url_of(listen: Seq<char>) -> Seq<char> {
    if is_prefix(http_scheme(), listen) || is_prefix(https_scheme(), listen) {
        trim_slashes(listen)
    } else {
        trim_slashes(http_scheme() + listen)
    }
}

/// A client of the agent's HTTP surface.
pub struct AgentClient {
    base_url: String,
}

/// Why a request to the agent failed before or after the socket work.
#[derive(Debug)]
pub enum ClientError {
    /// The base address and path do not form an absolute URL.
    InvalidUrl,
    /// The URL has no host.
    MissingHost,
    /// The agent answered 404 for this path.
    NotFound(String),
}

/// Where to connect and what to send for one GET request.
pub struct HttpTarget {
    pub host: String,
    pub port: u16,
    pub path: String,
    pub request: String,
}

/// The text of a GET request for `path` on `host` that closes the
/// connection after the reply.
pub open spec fn get_request(path: Seq<char>, host: Seq<char>) -> Seq<char> {
    seq!['G', 'E', 'T', ' '] + path + seq![' ', 'H', 'T', 'T', 'P', '/', '1', '.', '1', '\r', '\n', 'H', 'o', 's', 't', ':', ' ']
        + host + seq!['\r', '\n', 'C', 'o', 'n', 'n', 'e', 'c', 't', 'i', 'o', 'n', ':', ' ', 'c', 'l', 'o', 's', 'e', '\r',
        '\n', '\r', '\n']
}

/// Renders the GET request for `path` on `host`.
pub fn get_request_text(path: &str, host: &str) -> (r: String)
    ensures
        r@ == get_request(path@, host@),
{
    let mut out: Vec<char> = vec!['G', 'E', 'T', ' '];
    push_all(&mut out, &chars_of(path));
    let mid: Vec<char> = vec![' ', 'H', 'T', 'T', 'P', '/', '1', '.', '1', '\r', '\n', 'H', 'o', 's', 't', ':', ' '];
    push_all(&mut out, &mid);
    push_all(&mut out, &chars_of(host));
    let tail: Vec<char> = vec!['\r', '\n', 'C', 'o', 'n', 'n', 'e', 'c', 't', 'i', 'o', 'n', ':', ' ', 'c', 'l', 'o', 's', 'e', '\r', '\n', '\r', '\n'];
    push_all(&mut out, &tail);
    assert(out@ =~= get_request(path@, host@));
    string_of(&out)
}

/// The address to connect to, `{host}:{port}`.
pub open spec fn socket_text(host: Seq<char>, port: u16) -> Seq<char> {
    host + seq![':'] + decimal(port as nat)
}

/// Renders the address to connect to.
pub fn socket_address(host: &str, port: u16) -> (r: String)
    ensures
        r@ == socket_text(host@, port),
{
    let mut out = chars_of(host);
    out.push(':');
    push_decimal(&mut out, port as u64);
    assert(out@ =~= socket_text(host@, port));
    string_of(&out)
}

impl AgentClient {
    /// The client's base URL.
    pub closed spec fn base(&self) -> Seq<char> {
        self.base_url@
    }

    /// A client for the agent listening on `listen_address`.
    pub fn new(listen_address: &str) -> (c: Self)
        ensures
            c.base() == base_url_of(listen_address@),
    {
        let l = chars_of(listen_address);
        let http: Vec<char> = vec!['h', 't', 't', 'p', ':', '/', '/'];
        let https: Vec<char> = vec!['h', 't', 't', 'p', 's', ':', '/', '/'];
        assert(http@ =~= http_scheme());
        assert(https@ =~= https_scheme());
        let full = if starts_with_chars(&l, &http) || starts_with_chars(&l, &https) {
            l
        } else {
            let mut f = http;
            push_all(&mut f, &l);
            f
        };
        let mut n: usize = full.len();
        assert(full@.subrange(0, n as int) =~= full@);
        while n > 0 && full[n - 1] == '/'
            invariant
                n <= full.len(),
                trim_slashes(full@) == trim_slashes(full@.subrange(0, n as int)),
            decreases n,
        {
            assert(full@.subrange(0, n as int).drop_last() =~= full@.subrange(0, n - 1));
            n = n - 1;
        }
        let mut kept: Vec<char> = Vec::new();
        let mut i: usize = 0;
        while i < n
            invariant
                n <= full.len(),
                i <= n,
                kept@ == full@.subrange(0, i as int),
            decreases n - i,
        {
            kept.push(full[i]);
            i = i + 1;
            assert(kept@ =~= full@.subrange(0, i as int));
        }
        AgentClient { base_url: string_of(&kept) }
    }

    /// The client's base URL.
    pub fn base_url(&self) -> (r: &str)
        ensures
            r@ == self.base(),
    {
        self.base_url.as_str()
    }

    /// Where to connect and what to send for a GET of `path`: the host and
    /// port of the URL `{base}{path}` (port 80 when the URL gives none and
    /// its scheme has no known default) and the request for that URL's path.
    pub fn request_for(&self, path: &str) -> (r: Result<HttpTarget, ClientError>)
        ensures
            r matches Ok(t) ==> t.request@ == get_request(t.path@, t.host@),
    {
        let mut full = chars_of(self.base_url.as_str());
        push_all(&mut full, &chars_of(path));
        let text = string_of(&full);
        let url = match parse_url(text.as_str()) {
            Ok(u) => u,
            Err(_) => {
                return Err(ClientError::InvalidUrl);
            },
        };
        let host = match url_host(&url) {
            Some(h) => h,
            None => {
                return Err(ClientError::MissingHost);
            },
        };
        let port = match url_port(&url) {
            Some(p) => p,
            None => 80,
        };
        let url_path_text = url_path(&url);
        let request = get_request_text(url_path_text.as_str(), host.as_str());
        Ok(HttpTarget { host, port, path: url_path_text, request })
    }
}

/// Whether `s` holds the blank line `\r\n\r\n` at index `k`.
pub open spec fn blank_line_at(s: Seq<char>, k: int) -> bool {
    0 <= k && k + 4 <= s.len() && s[k] == '\r' && s[k + 1] == '\n' && s[k + 2] == '\r' && s[k + 3] == '\n'
}

/// The status code in a status line: its second word as a `u16`, else 0.
pub open spec fn status_code_of(line: Seq<char>) -> u16 {
    let w = pieces(line, SPLIT_WORDS);
    if w.len() >= 2 && u64_of(w[1]) is Some && u64_of(w[1]).unwrap() <= u16::MAX {
        u64_of(w[1]).unwrap() as u16
    } else {
        0
    }
}

/// Splits a raw reply at its first blank line into the status code of the
/// head and the body; a reply without a blank line is all head.
pub fn parse_http_response(resp: &str) -> (r: (u16, String))
    ensures
        (exists|k: int| blank_line_at(resp@, k)) ==> {
            let k = choose|k: int| blank_line_at(resp@, k) && forall|j: int| 0 <= j < k ==> !blank_line_at(resp@, j);
            r.0 == status_code_of(resp@.subrange(0, k)) && r.1@ == resp@.subrange(k + 4, resp@.len() as int)
        },
        (forall|k: int| !blank_line_at(resp@, k)) ==> r.0 == status_code_of(resp@) && r.1@.len() == 0,
{
    let cs = chars_of(resp);
    let mut k: usize = 0;
    let mut found = false;
    while cs.len() >= 4 && k <= cs.len() - 4
        invariant_except_break
            !found,
        invariant
            cs@ == resp@,
            k <= cs.len(),
            forall|j: int| 0 <= j < k ==> !blank_line_at(resp@, j),
        ensures
            found ==> k + 4 <= cs.len() && blank_line_at(resp@, k as int),
            !found ==> cs.len() < 4 || k > cs.len() - 4,
        decreases cs.len() - k,
    {
        if cs[k] == '\r' && cs[k + 1] == '\n' && cs[k + 2] == '\r' && cs[k + 3] == '\n' {
            found = true;
            assert(blank_line_at(resp@, k as int));
            break;
        }
        k = k + 1;
    }
    let head_end = if found { k } else { cs.len() };
    let mut head: Vec<char> = Vec::new();
    let mut i: usize = 0;
    while i < head_end
        invariant
            head_end <= cs.len(),
            i <= head_end,
            head@ == cs@.subrange(0, i as int),
        decreases head_end - i,
    {
        head.push(cs[i]);
        i = i + 1;
        assert(head@ =~= cs@.subrange(0, i as int));
    }
    let mut body: Vec<char> = Vec::new();
    if found {
        let mut j: usize = k + 4;
        while j < cs.len()
            invariant
                k + 4 <= j <= cs.len(),
                body@ == cs@.subrange(k + 4, j as int),
            decreases cs.len() - j,
        {
            body.push(cs[j]);
            j = j + 1;
            assert(body@ =~= cs@.subrange(k + 4, j as int));
        }
    }
    let words = split_pieces(&head, SPLIT_WORDS);
    let ghost wv = words@.map_values(|w: Vec<char>| w@);
    let code: u16 = if words.len() >= 2 {
        assert(wv[1] == words@[1]@);
        match parse_u64(&words[1]) {
            Some(v) => if v <= 65535 {
                v as u16
            } else {
                0
            },
            None => 0,
        }
    } else {
        0
    };
    proof {
        if found {
            assert(blank_line_at(resp@, k as int));
            let kk = choose|k2: int| blank_line_at(resp@, k2) && forall|j: int| 0 <= j < k2 ==> !blank_line_at(resp@, j);
            assert(kk == k);
        } else {
            assert forall|k2: int| !blank_line_at(resp@, k2) by {
                if blank_line_at(resp@, k2) {
                    assert(k2 < k);
                }
            }
            assert(cs@.subrange(0, cs.len() as int) =~= cs@);
        }
    }
    (code, string_of(&body))
}

/// The result of fetching the text export: the body, unless the agent
/// answered 404.
pub fn metrics_text_result(status: u16, body: String) -> (r: Result<String, ClientError>)
    ensures
        status == 404 ==> (r matches Err(ClientError::NotFound(p)) && p@ == seq!['/', 'm', 'e', 't', 'r', 'i', 'c', 's']),
        status != 404 ==> r == Ok::<String, ClientError>(body),
{
    if status == 404 {
        let p: Vec<char> = vec!['/', 'm', 'e', 't', 'r', 'i', 'c', 's'];
        assert(p@ =~= seq!['/', 'm', 'e', 't', 'r', 'i', 'c', 's']);
        Err(ClientError::NotFound(string_of(&p)))
    } else {
        Ok(body)
    }
}

} // verus!
