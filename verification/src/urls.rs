//! Parsing of git remote URLs: explicit `ssh://` and `file://` forms, bare
//! file paths, and scp-like `user@host.xz:path` forms.  The WHATWG parsing
//! itself is done by an outside URL parser; the protocol guessing, the
//! scp-like rewriting and the assembly of the result are verified here.

use vstd::prelude::*;

use crate::util::{copy_range, find_byte};

verus! {

/// The transport a URL names.
#[derive(Clone, Copy, Debug, PartialEq, Eq)]
pub enum Protocol {
    Ssh,
    File,
}

/// A leading `~` path segment of an ssh URL: the current user's home, or a
/// named user's.
#[derive(Clone, Debug, PartialEq, Eq)]
pub enum UserExpansion {
    Current,
    Name(Vec<u8>),
}

/// A parsed git remote URL.
#[derive(Clone, Debug, PartialEq, Eq)]
pub struct Url {
    pub protocol: Protocol,
    pub user: Option<String>,
    pub host: Option<String>,
    pub port: Option<u16>,
    pub path: Vec<u8>,
    pub expand_user: Option<UserExpansion>,
}

/// Everything that can go wrong parsing a URL.
#[derive(Clone, Debug, PartialEq, Eq)]
pub enum Error {
    /// The input is not UTF-8.
    Utf8,
    /// The URL parser rejected the input.
    Url,
    /// The scheme is neither `ssh` nor `file`.
    UnsupportedProtocol(String),
    /// The URL has an empty path.
    EmptyPath,
    /// The URL cannot be a base: it is relative.
    RelativeURL(String),
}

/// The parts of a parsed URL, copied out of the outside parser's result.
pub struct RawUrlParts {
    pub scheme: String,
    pub user: String,
    pub host: Option<String>,
    pub port: Option<u16>,
    pub path: String,
    pub cannot_be_a_base: bool,
    pub serialized: String,
}

/// What one attempt to parse bytes as a URL produced.
pub enum UrlAttempt {
    Parsed(RawUrlParts),
    RelativeWithoutBase,
    NotUtf8,
    OtherError,
}

/// The parts of a parsed URL, at the specification level.
pub struct SpecUrlParts {
    pub scheme: Seq<char>,
    pub user: Seq<char>,
    pub host: Option<Seq<char>>,
    pub port: Option<u16>,
    pub path: Seq<char>,
    pub cannot_be_a_base: bool,
    pub serialized: Seq<char>,
}

/// One URL parse attempt, at the specification level.
pub enum SpecUrlOutcome {
    Parsed(SpecUrlParts),
    RelativeWithoutBase,
    NotUtf8,
    OtherError,
}

pub open spec fn parts_view(p: RawUrlParts) -> SpecUrlParts {
    SpecUrlParts {
        scheme: p.scheme@,
        user: p.user@,
        host: match p.host {
            Option::Some(h) => Option::Some(h@),
            Option::None => Option::None,
        },
        port: p.port,
        path: p.path@,
        cannot_be_a_base: p.cannot_be_a_base,
        serialized: p.serialized@,
    }
}

pub open spec fn attempt_view(r: UrlAttempt) -> SpecUrlOutcome {
    match r {
        UrlAttempt::Parsed(p) => SpecUrlOutcome::Parsed(parts_view(p)),
        UrlAttempt::RelativeWithoutBase => SpecUrlOutcome::RelativeWithoutBase,
        UrlAttempt::NotUtf8 => SpecUrlOutcome::NotUtf8,
        UrlAttempt::OtherError => SpecUrlOutcome::OtherError,
    }
}

/// What the outside URL parser returns for the given bytes.  The result is a
/// function of the bytes alone, so it can be named without being written out.
pub uninterp spec fn url_parse_of(b: Seq<u8>) -> SpecUrlOutcome;

/// Relies on url::Url::parse, the WHATWG URL parser, with std::str::from_utf8
/// converting the argument (it fails exactly on invalid UTF-8, which the
/// second clause records); the accessors scheme, username, host_str, port,
/// path, cannot_be_a_base and as_str copy the parsed parts out, and the error
/// arm separates RelativeUrlWithoutBase from every other parse error.
#[verifier::external_body]
fn url_parse_bytes(b: &[u8]) -> (r: UrlAttempt)
    ensures
        attempt_view(r) == url_parse_of(b@),
        (r is NotUtf8) <==> !vstd::utf8::valid_utf8(b@),
{
    match std::str::from_utf8(b) {
        Err(_) => UrlAttempt::NotUtf8,
        Ok(s) => match url::Url::parse(s) {
            Err(url::ParseError::RelativeUrlWithoutBase) => UrlAttempt::RelativeWithoutBase,
            Err(_) => UrlAttempt::OtherError,
            Ok(u) => UrlAttempt::Parsed(RawUrlParts {
                scheme: u.scheme().into(), user: u.username().into(),
                host: u.host_str().map(|h| h.into()), port: u.port(),
                path: u.path().into(), cannot_be_a_base: u.cannot_be_a_base(),
                serialized: u.as_str().into(),
            }),
        },
    }
}

/// There is a first colon, and a dot somewhere before it: the part before the
/// colon looks like a host name.
pub open spec fn spec_guess_ssh(s: Seq<u8>) -> bool {
    exists|i: int, j: int|
        #![auto]
        0 <= j < i < s.len() && s[i] == 58 && s[j] == 46 && (forall|k: int|
            0 <= k < i ==> s[k] != 58)
}

/// The bytes hold `://` somewhere.
pub open spec fn spec_has_scheme_sep(s: Seq<u8>) -> bool {
    exists|i: int| 0 <= i && i + 2 < s.len() && #[trigger] s[i] == 58 && s[i + 1] == 47 && s[i + 2] == 47
}

/// The bytes start with `file://`.
pub open spec fn spec_file_prefix(s: Seq<u8>) -> bool {
    s.len() >= 7 && s[0] == 102 && s[1] == 105 && s[2] == 108 && s[3] == 101 && s[4] == 58 && s[5]
        == 47 && s[6] == 47
}

/// The index of the first `/` at or after `k`, or the length if there is none.
pub open spec fn first_slash_from(p: Seq<u8>, k: int) -> int
    decreases p.len() - k,
{
    if k < 0 || k >= p.len() {
        p.len() as int
    } else if p[k] == 47 {
        k
    } else {
        first_slash_from(p, k + 1)
    }
}

/// The path has a first segment beginning with `~`.
pub open spec fn spec_expands(p: Seq<u8>) -> bool {
    p.len() >= 2 && p[0] == 47 && p[1] == 126
}

/// Guess a protocol for a URL with no explicit scheme: ssh when the part
/// before the first colon contains a dot (so it looks like a host), file
/// otherwise.
pub fn guess_protocol(url: &[u8]) -> (r: Protocol)
    ensures
        r == (if spec_guess_ssh(url@) {
            Protocol::Ssh
        } else {
            Protocol::File
        }),
{
    match find_byte(url, 58) {
        Some(colon_pos) => {
            let prefix: &[u8] = &url[0..colon_pos];
            match find_byte(prefix, 46) {
                Some(_) => {
                    proof {
                        assert(spec_guess_ssh(url@));
                    }
                    Protocol::Ssh
                },
                None => {
                    proof {
                        if spec_guess_ssh(url@) {
                            let (i, j): (int, int) = choose|i: int, j: int|
                                #![auto]
                                0 <= j < i < url@.len() && url@[i] == 58 && url@[j] == 46 && (
                                forall|k: int| 0 <= k < i ==> url@[k] != 58);
                            assert(i == colon_pos);
                            assert(prefix@[j] == 46);
                            assert(false);
                        }
                    }
                    Protocol::File
                },
            }
        },
        None => {
            proof {
                if spec_guess_ssh(url@) {
                    let (i, j): (int, int) = choose|i: int, j: int|
                        #![auto]
                        0 <= j < i < url@.len() && url@[i] == 58 && url@[j] == 46 && (forall|
                            k: int,
                        | 0 <= k < i ==> url@[k] != 58);
                    assert(url@[i] == 58);
                    assert(false);
                }
            }
            Protocol::File
        },
    }
}

/// Whether the bytes carry no explicit `://` scheme separator.
pub fn has_no_explicit_protocol(url: &[u8]) -> (r: bool)
    ensures
        r == !spec_has_scheme_sep(url@),
{
    let n: usize = url.len();
    if n < 3 {
        return true;
    }
    let mut i: usize = 0;
    while i + 2 < n
        invariant
            n == url@.len(),
            0 <= i,
            i + 2 <= n,
            forall|k: int|
                0 <= k < i ==> !(#[trigger] url@[k] == 58 && url@[k + 1] == 47 && url@[k + 2]
                    == 47),
        decreases n - i,
    {
        if url[i] == 58 && url[i + 1] == 47 && url[i + 2] == 47 {
            proof {
                assert(spec_has_scheme_sep(url@));
            }
            return false;
        }
        i = i + 1;
    }
    proof {
        if spec_has_scheme_sep(url@) {
            let w: int = choose|w: int|
                0 <= w && w + 2 < url@.len() && #[trigger] url@[w] == 58 && url@[w + 1] == 47
                    && url@[w + 2] == 47;
            assert(!(url@[w] == 58 && url@[w + 1] == 47 && url@[w + 2] == 47));
            assert(false);
        }
    }
    true
}

/// Drop a leading `file://`, if there is one.
pub fn possibly_strip_file_protocol(url: &[u8]) -> (r: Vec<u8>)
    ensures
        spec_file_prefix(url@) ==> r@ == url@.skip(7),
        !spec_file_prefix(url@) ==> r@ == url@,
{
    let n: usize = url.len();
    if n >= 7 && url[0] == 102 && url[1] == 105 && url[2] == 108 && url[3] == 101 && url[4] == 58
        && url[5] == 47 && url[6] == 47 {
        let out: Vec<u8> = copy_range(url, 7, n - 7);
        proof {
            assert(out@ =~= url@.skip(7));
        }
        out
    } else {
        let out: Vec<u8> = copy_range(url, 0, n);
        proof {
            assert(out@ =~= url@);
        }
        out
    }
}

/// For ssh, replace the first colon by a slash, turning an scp-like
/// `host:path` into `host/path`; anything else passes through unchanged.
pub fn sanitize_for_protocol(protocol: Protocol, url: &[u8]) -> (r: Vec<u8>)
    ensures
        protocol == Protocol::Ssh ==> (match find_first_colon_spec(url@) {
            Some(i) => r@ == url@.update(i, 47u8),
            None => r@ == url@,
        }),
        protocol != Protocol::Ssh ==> r@ == url@,
{
    let n: usize = url.len();
    match protocol {
        Protocol::Ssh => {
            match find_byte(url, 58) {
                Some(i) => {
                    let mut out: Vec<u8> = Vec::new();
                    let mut k: usize = 0;
                    while k < n
                        invariant
                            n == url@.len(),
                            i < n,
                            url@[i as int] == 58,
                            forall|m: int| 0 <= m < i ==> url@[m] != 58,
                            0 <= k <= n,
                            out@.len() == k,
                            forall|m: int|
                                0 <= m < k ==> #[trigger] out@[m] == (if m == i {
                                    47u8
                                } else {
                                    url@[m]
                                }),
                        decreases n - k,
                    {
                        if k == i {
                            out.push(47);
                        } else {
                            out.push(url[k]);
                        }
                        k = k + 1;
                    }
                    proof {
                        assert(find_first_colon_spec(url@) == Some(i as int));
                        assert(out@ =~= url@.update(i as int, 47u8));
                    }
                    out
                },
                None => {
                    proof {
                        assert(find_first_colon_spec(url@) is None);
                    }
                    copy_range(url, 0, n)
                },
            }
        },
        Protocol::File => copy_range(url, 0, n),
    }
}

/// The index of the first colon, if any.
pub open spec fn find_first_colon_spec(s: Seq<u8>) -> Option<int> {
    if exists|i: int| #![auto] 0 <= i < s.len() && s[i] == 58 && (forall|k: int|
        0 <= k < i ==> s[k] != 58) {
        Some(
            choose|i: int|
                #![auto]
                0 <= i < s.len() && s[i] == 58 && (forall|k: int| 0 <= k < i ==> s[k] != 58),
        )
    } else {
        Option::<int>::None
    }
}

/// The bytes of an scp-like URL with its first colon turned into a slash.
pub open spec fn spec_sanitize_ssh(u: Seq<u8>) -> Seq<u8> {
    match find_first_colon_spec(u) {
        Some(i) => u.update(i, 47u8),
        None => u,
    }
}

/// The bytes handed to the retry parse: an explicit scheme prefix, and for
/// ssh the scp rewrite of the first colon.
pub open spec fn spec_retry_bytes(ssh: bool, u: Seq<u8>) -> Seq<u8> {
    if ssh {
        seq![115u8, 115u8, 104u8, 58u8, 47u8, 47u8] + spec_sanitize_ssh(u)
    } else {
        seq![102u8, 105u8, 108u8, 101u8, 58u8, 47u8, 47u8] + u
    }
}

/// The scheme's UTF-8 bytes contain a dot: it is really a host name.
pub open spec fn spec_scheme_has_dot(s: Seq<char>) -> bool {
    exists|i: int|
        0 <= i < vstd::utf8::encode_utf8(s).len() && #[trigger] vstd::utf8::encode_utf8(s)[i]
            == 46
}

/// Everything the final `Url` owes to the parts it was assembled from:
/// protocol from the scheme, user, host and port carried over, the path as
/// UTF-8 bytes, and the tilde expansion read from the path's first segment.
pub open spec fn spec_url_fields_ok(p: SpecUrlParts, u: Url) -> bool {
    let pb = vstd::utf8::encode_utf8(p.path);
    &&& (p.scheme == "ssh"@ ==> u.protocol == Protocol::Ssh)
    &&& (p.scheme == "file"@ ==> u.protocol == Protocol::File)
    &&& (p.user.len() == 0 ==> u.user is None)
    &&& (p.user.len() > 0 ==> (u.user matches Some(x) && x@ == p.user))
    &&& (u.host is Some <==> p.host is Some)
    &&& (p.host matches Some(h) ==> (u.host matches Some(h2) && h2@ == h))
    &&& u.port == p.port
    &&& u.path@ == pb
    &&& ((p.scheme != "ssh"@ && p.scheme != "git"@) ==> u.expand_user is None)
    &&& (p.scheme == "ssh"@ && !spec_expands(pb) ==> u.expand_user is None)
    &&& (p.scheme == "ssh"@ && spec_expands(pb) && first_slash_from(pb, 1) == 2 ==> u.expand_user
        == Some(UserExpansion::Current))
    &&& (p.scheme == "ssh"@ && spec_expands(pb) && first_slash_from(pb, 1) > 2 ==> (u.expand_user
        matches Some(UserExpansion::Name(nm)) && nm@ == pb.subrange(2, first_slash_from(pb, 1))))
}

/// What assembling a `Url` from parsed parts returns: success exactly for the
/// two supported schemes, with every field fixed, and the unsupported-scheme
/// error otherwise.
pub open spec fn spec_assembled(p: SpecUrlParts, r: Result<Url, Error>) -> bool {
    &&& (r is Ok <==> (p.scheme == "ssh"@ || p.scheme == "file"@))
    &&& (r matches Ok(u) ==> spec_url_fields_ok(p, u))
    &&& (r matches Err(e) ==> (e matches Error::UnsupportedProtocol(pp) && pp@ == p.scheme))
}

/// The decisions taken on one set of finally parsed parts: an empty path is
/// rejected, a cannot-be-a-base URL is rejected with its serialization, and
/// anything else is assembled.
pub open spec fn spec_decide(p: SpecUrlParts, r: Result<Url, Error>) -> bool {
    &&& (p.path.len() == 0 ==> r == Err::<Url, Error>(Error::EmptyPath))
    &&& (p.path.len() > 0 && p.cannot_be_a_base ==> (r matches Err(Error::RelativeURL(s)) && s@
        == p.serialized))
    &&& (p.path.len() > 0 && !p.cannot_be_a_base ==> spec_assembled(p, r))
}

/// After a first successful parse of `u` yields `p`: a scheme with a dot is
/// an scp host, so the input is reparsed with an `ssh://` prefix; otherwise
/// `p` itself is decided on.
pub open spec fn spec_finish(p: SpecUrlParts, u: Seq<u8>, r: Result<Url, Error>) -> bool {
    if spec_scheme_has_dot(p.scheme) {
        match url_parse_of(spec_retry_bytes(true, u)) {
            SpecUrlOutcome::Parsed(q) => spec_decide(q, r),
            SpecUrlOutcome::NotUtf8 => r == Err::<Url, Error>(Error::Utf8),
            SpecUrlOutcome::RelativeWithoutBase => r == Err::<Url, Error>(Error::Url),
            SpecUrlOutcome::OtherError => r == Err::<Url, Error>(Error::Url),
        }
    } else {
        spec_decide(p, r)
    }
}

/// Map a scheme name to the protocol it stands for.
pub fn str_to_protocol(s: &str) -> (r: Result<Protocol, Error>)
    ensures
        s@ == "ssh"@ ==> r == Ok::<Protocol, Error>(Protocol::Ssh),
        s@ == "file"@ ==> r == Ok::<Protocol, Error>(Protocol::File),
        (s@ != "ssh"@ && s@ != "file"@) ==> (r matches Err(Error::UnsupportedProtocol(p)) && p@
            == s@),
        r is Ok <==> (s@ == "ssh"@ || s@ == "file"@),
{
    proof {
        reveal_strlit("ssh");
        reveal_strlit("file");
        assert("ssh"@.len() == 3);
        assert("file"@.len() == 4);
        assert("ssh"@ != "file"@);
    }
    let o: String = s.to_owned();
    if o == "ssh".to_owned() {
        Ok(Protocol::Ssh)
    } else if o == "file".to_owned() {
        Ok(Protocol::File)
    } else {
        Err(Error::UnsupportedProtocol(o))
    }
}

/// Build a URL value from parsed parts: the scheme must name a supported
/// protocol, an empty user name means no user, and the path is kept as bytes.
pub fn to_owned_url(parts: RawUrlParts) -> (r: Result<Url, Error>)
    ensures
        r is Ok <==> (parts.scheme@ == "ssh"@ || parts.scheme@ == "file"@),
        r matches Ok(u) ==> {
            &&& (parts.scheme@ == "ssh"@ ==> u.protocol == Protocol::Ssh)
            &&& (parts.scheme@ == "file"@ ==> u.protocol == Protocol::File)
            &&& (parts.user@.len() == 0 ==> u.user is None)
            &&& (parts.user@.len() > 0 ==> (u.user matches Some(x) && x@ == parts.user@))
            &&& (u.host is Some <==> parts.host is Some)
            &&& (parts.host matches Some(h) ==> (u.host matches Some(h2) && h2@ == h@))
            &&& u.port == parts.port
            &&& u.path@ == vstd::utf8::encode_utf8(parts.path@)
            &&& u.expand_user is None
        },
        r matches Err(e) ==> e matches Error::UnsupportedProtocol(p) && p@ == parts.scheme@,
{
    let protocol: Protocol = match str_to_protocol(parts.scheme.as_str()) {
        Ok(p) => p,
        Err(e) => {
            return Err(e);
        },
    };
    let user: Option<String> = if parts.user.as_str().is_empty() {
        None
    } else {
        Some(parts.user)
    };
    let path: Vec<u8> = parts.path.as_str().as_bytes_vec();
    Ok(Url { protocol, user, host: parts.host, port: parts.port, path, expand_user: None })
}

/// As `to_owned_url`, but for ssh and git URLs first read a leading `~` path
/// segment as a user expansion: `~` alone is the current user, `~name` a
/// named one.
pub fn with_parsed_user_expansion(parts: RawUrlParts) -> (r: Result<Url, Error>)
    ensures
        spec_assembled(parts_view(parts), r),
        r is Ok <==> (parts.scheme@ == "ssh"@ || parts.scheme@ == "file"@),
{
    proof {
        reveal_strlit("ssh");
        reveal_strlit("git");
    }
    let scheme_owned: String = parts.scheme.clone();
    let is_ssh: bool = scheme_owned == "ssh".to_owned();
    let is_git: bool = scheme_owned == "git".to_owned();
    if !is_ssh && !is_git {
        let r = to_owned_url(parts);
        return r;
    }
    let pb: Vec<u8> = parts.path.as_str().as_bytes_vec();
    let expansion: Option<UserExpansion> = if pb.len() >= 2 && pb[0] == 47 && pb[1] == 126 {
        let e: usize = find_slash_from(&pb, 1);
        if e == 2 {
            Some(UserExpansion::Current)
        } else {
            Some(UserExpansion::Name(copy_range(pb.as_slice(), 2, e - 2)))
        }
    } else {
        None
    };
    match to_owned_url(parts) {
        Ok(u) => {
            let mut u2: Url = u;
            u2.expand_user = expansion;
            Ok(u2)
        },
        Err(e) => Err(e),
    }
}

/// The index of the first `/` at or after `from`, or the length if none.
fn find_slash_from(p: &Vec<u8>, from: usize) -> (r: usize)
    requires
        from <= p@.len(),
    ensures
        r as int == first_slash_from(p@, from as int),
        from as int <= r <= p@.len(),
        r < p@.len() ==> p@[r as int] == 47,
{
    let n: usize = p.len();
    let mut k: usize = from;
    while k < n
        invariant
            n == p@.len(),
            from <= k <= n,
            first_slash_from(p@, from as int) == first_slash_from(p@, k as int),
        decreases n - k,
    {
        if p[k] == 47 {
            return k;
        }
        k = k + 1;
    }
    n
}

/// Parse a git remote URL from bytes.  `file://` URLs and bare paths never
/// touch the URL parser; scp-like forms are rewritten with an `ssh://` scheme
/// and reparsed.
pub fn parse(url: &[u8]) -> (r: Result<Url, Error>)
    ensures
        (spec_file_prefix(url@) || (!spec_has_scheme_sep(url@) && !spec_guess_ssh(url@)))
            ==> (r matches Ok(u) && u.protocol == Protocol::File && u.user is None && u.host
            is None && u.port is None && u.expand_user is None && (spec_file_prefix(url@)
            ==> u.path@ == url@.skip(7)) && (!spec_file_prefix(url@) ==> u.path@ == url@)),
        r matches Ok(u) ==> (u.protocol == Protocol::Ssh || u.protocol == Protocol::File),
        (!spec_file_prefix(url@) && (spec_has_scheme_sep(url@) || spec_guess_ssh(url@))
            && !vstd::utf8::valid_utf8(url@)) ==> r == Err::<Url, Error>(Error::Utf8),
        !(spec_file_prefix(url@) || (!spec_has_scheme_sep(url@) && !spec_guess_ssh(url@))) ==> (
        match url_parse_of(url@) {
            SpecUrlOutcome::NotUtf8 => r == Err::<Url, Error>(Error::Utf8),
            SpecUrlOutcome::OtherError => r == Err::<Url, Error>(Error::Url),
            SpecUrlOutcome::RelativeWithoutBase => (match url_parse_of(
                spec_retry_bytes(spec_guess_ssh(url@), url@),
            ) {
                SpecUrlOutcome::Parsed(p) => spec_finish(p, url@, r),
                SpecUrlOutcome::NotUtf8 => r == Err::<Url, Error>(Error::Utf8),
                SpecUrlOutcome::RelativeWithoutBase => r == Err::<Url, Error>(Error::Url),
                SpecUrlOutcome::OtherError => r == Err::<Url, Error>(Error::Url),
            }),
            SpecUrlOutcome::Parsed(p) => spec_finish(p, url@, r),
        }),
{
    let guessed: Protocol = guess_protocol(url);
    let stripped: Vec<u8> = possibly_strip_file_protocol(url);
    let no_explicit: bool = has_no_explicit_protocol(url);
    if stripped.len() != url.len() || (no_explicit && matches!(guessed, Protocol::File)) {
        proof {
            if stripped@.len() != url@.len() {
                assert(spec_file_prefix(url@));
            }
        }
        return Ok(
            Url {
                protocol: Protocol::File,
                user: None,
                host: None,
                port: None,
                path: stripped,
                expand_user: None,
            },
        );
    }
    let parts0: RawUrlParts = match url_parse_bytes(url) {
        UrlAttempt::Parsed(p) => p,
        UrlAttempt::NotUtf8 => {
            return Err(Error::Utf8);
        },
        UrlAttempt::OtherError => {
            return Err(Error::Url);
        },
        UrlAttempt::RelativeWithoutBase => {
            let retry: Vec<u8> = assemble_with_scheme(guessed, url);
            match url_parse_bytes(retry.as_slice()) {
                UrlAttempt::Parsed(p) => p,
                UrlAttempt::NotUtf8 => {
                    return Err(Error::Utf8);
                },
                _ => {
                    return Err(Error::Url);
                },
            }
        },
    };
    let sb: Vec<u8> = parts0.scheme.as_str().as_bytes_vec();
    let scheme_has_dot: bool = match find_byte(sb.as_slice(), 46) {
        Some(_) => true,
        None => false,
    };
    let parts: RawUrlParts = if scheme_has_dot {
        let retry: Vec<u8> = assemble_with_scheme(Protocol::Ssh, url);
        match url_parse_bytes(retry.as_slice()) {
            UrlAttempt::Parsed(p) => p,
            UrlAttempt::NotUtf8 => {
                return Err(Error::Utf8);
            },
            _ => {
                return Err(Error::Url);
            },
        }
    } else {
        parts0
    };
    if parts.path.as_str().is_empty() {
        return Err(Error::EmptyPath);
    }
    if parts.cannot_be_a_base {
        return Err(Error::RelativeURL(parts.serialized.clone()));
    }
    with_parsed_user_expansion(parts)
}

/// Prepend `<scheme>://` to the sanitized bytes of an implicit-scheme URL.
fn assemble_with_scheme(protocol: Protocol, url: &[u8]) -> (r: Vec<u8>)
    ensures
        r@ == spec_retry_bytes(protocol == Protocol::Ssh, url@),
{
    let mut out: Vec<u8> = Vec::new();
    match protocol {
        Protocol::Ssh => {
            out.push(115);
            out.push(115);
            out.push(104);
        },
        Protocol::File => {
            out.push(102);
            out.push(105);
            out.push(108);
            out.push(101);
        },
    }
    out.push(58);
    out.push(47);
    out.push(47);
    let mut tail: Vec<u8> = sanitize_for_protocol(protocol, url);
    out.append(&mut tail);
    proof {
        if protocol == Protocol::Ssh {
            assert(out@ =~= seq![115u8, 115u8, 104u8, 58u8, 47u8, 47u8] + (
            match find_first_colon_spec(url@) {
                Some(i) => url@.update(i, 47u8),
                None => url@,
            }));
        } else {
            assert(out@ =~= seq![102u8, 105u8, 108u8, 101u8, 58u8, 47u8, 47u8] + url@);
        }
    }
    out
}

} // verus!
