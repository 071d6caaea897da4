use hopper::client::Hostname;

#[test]
fn test_hostname() {
    let hostname = b"hello\x00extra";

    let res = Hostname::from_str(hostname).unwrap();
    assert_eq!(&res.bytes[..], b"hello");
}

#[test]
fn test_invalid() {
    let hostname = b"\x00extra";
    let res = Hostname::from_str(hostname);

    assert!(res.is_none());
}

#[test]
fn hostname_slash() {
    let res = Hostname::from_str(b"play.example.com/extra").unwrap();
    assert_eq!(&res.bytes[..], b"play.example.com");
}

#[test]
fn hostname_sanitize_idempotent() {
    for sample in [
        &b"hello\x00extra"[..],
        b"play.example.com/more",
        b"plain",
        b"a\x00b/c",
        b"x/",
    ] {
        let once = Hostname::from_str(sample).unwrap();
        let twice = Hostname::from_str(&once.bytes).unwrap();
        assert_eq!(once.bytes, twice.bytes);
    }
}
