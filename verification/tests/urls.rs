//! Tests of git remote URL parsing.

use gitcore::urls::{parse, str_to_protocol, Error, Protocol, UserExpansion};

#[test]
fn without_user_and_without_port() {
    let u = parse(b"ssh://host.xz/path/to/repo.git/").unwrap();
    assert_eq!(u.protocol, Protocol::Ssh);
    assert_eq!(u.user, None);
    assert_eq!(u.host, Some("host.xz".to_string()));
    assert_eq!(u.port, None);
    assert_eq!(u.path, b"/path/to/repo.git/".to_vec());
    assert_eq!(u.expand_user, None);
}

#[test]
fn without_user_and_with_port() {
    let u = parse(b"ssh://host.xz:21/").unwrap();
    assert_eq!(u.protocol, Protocol::Ssh);
    assert_eq!(u.user, None);
    assert_eq!(u.host, Some("host.xz".to_string()));
    assert_eq!(u.port, Some(21));
    assert_eq!(u.path, b"/".to_vec());
}

#[test]
fn host_is_ipv4() {
    let u = parse(b"ssh://127.69.0.1/hello").unwrap();
    assert_eq!(u.protocol, Protocol::Ssh);
    assert_eq!(u.host, Some("127.69.0.1".to_string()));
    assert_eq!(u.path, b"/hello".to_vec());
}

#[test]
fn with_user_and_without_port() {
    let u = parse(b"ssh://user@host.xz/.git").unwrap();
    assert_eq!(u.protocol, Protocol::Ssh);
    assert_eq!(u.user, Some("user".to_string()));
    assert_eq!(u.host, Some("host.xz".to_string()));
    assert_eq!(u.port, None);
    assert_eq!(u.path, b"/.git".to_vec());
}

#[test]
fn scp_like_without_user() {
    let u = parse(b"host.xz:path/to/git").unwrap();
    assert_eq!(u.protocol, Protocol::Ssh);
    assert_eq!(u.user, None);
    assert_eq!(u.host, Some("host.xz".to_string()));
    assert_eq!(u.path, b"/path/to/git".to_vec());
}

#[test]
fn scp_like_with_user() {
    let u = parse(b"user@host.xz:./relative").unwrap();
    assert_eq!(u.protocol, Protocol::Ssh);
    assert_eq!(u.user, Some("user".to_string()));
    assert_eq!(u.host, Some("host.xz".to_string()));
    assert_eq!(u.path, b"/relative".to_vec());
}

#[test]
fn file_url_is_stripped() {
    let u = parse(b"file:///tmp/repo").unwrap();
    assert_eq!(u.protocol, Protocol::File);
    assert_eq!(u.host, None);
    assert_eq!(u.path, b"/tmp/repo".to_vec());
}

#[test]
fn bare_path_is_a_file_url() {
    let u = parse(b"/path/to/repo").unwrap();
    assert_eq!(u.protocol, Protocol::File);
    assert_eq!(u.path, b"/path/to/repo".to_vec());
    assert_eq!(u.expand_user, None);
}

#[test]
fn protocol_names() {
    assert_eq!(str_to_protocol("ssh"), Ok(Protocol::Ssh));
    assert_eq!(str_to_protocol("file"), Ok(Protocol::File));
    assert_eq!(
        str_to_protocol("git"),
        Err(Error::UnsupportedProtocol("git".to_string()))
    );
}

#[test]
fn empty_path_is_rejected() {
    assert_eq!(parse(b"ssh://host.xz"), Err(Error::EmptyPath));
}

#[test]
fn invalid_port_is_rejected() {
    assert_eq!(parse(b"ssh://host.xz:abc/"), Err(Error::Url));
}

#[test]
fn colon_path_without_dot_is_a_file_url() {
    // a colon with no dot before it guesses the file protocol
    let u = parse(b"ssh:notapath").unwrap();
    assert_eq!(u.protocol, Protocol::File);
    assert_eq!(u.path, b"ssh:notapath".to_vec());
}

#[test]
fn invalid_utf8_is_rejected() {
    assert_eq!(parse(b"ssh://\xff\xfe/x"), Err(Error::Utf8));
}

#[test]
fn tilde_expansion_current_user() {
    let u = parse(b"ssh://host.xz/~/repo").unwrap();
    assert_eq!(u.expand_user, Some(UserExpansion::Current));
}

#[test]
fn tilde_expansion_named_user() {
    let u = parse(b"ssh://host.xz/~byron/repo").unwrap();
    assert_eq!(u.expand_user, Some(UserExpansion::Name(b"byron".to_vec())));
    assert_eq!(u.path, b"/~byron/repo".to_vec());
}
