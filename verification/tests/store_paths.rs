use nix_varlink_client::error::VarlinkError;
use nix_varlink_client::store_path::invalid_path_error;
use nix_varlink_client::store_path::StorePath;

const BASE: &str = "55xkmqns51sw7nrgykp5vnz36w4fr3cw-nix-2.1.3";

fn full(dir: &str, base: &str) -> String {
    format!("{}/{}", dir, base)
}

#[test]
fn store_path_is_read_and_written_back() {
    let path = StorePath::parse("/nix/store", &full("/nix/store", BASE)).unwrap();
    assert_eq!(path.base(), BASE);
    assert_eq!(path.display("/nix/store"), full("/nix/store", BASE));
    assert_eq!(path.display("/other"), full("/other", BASE));
}

#[test]
fn written_store_path_is_read_back() {
    for dir in ["/nix/store", "/", "", "/a b/\u{e9}"] {
        let text = full(dir, BASE);
        let path = StorePath::parse(dir, &text).unwrap();
        assert_eq!(path.display(dir), text);
        assert_eq!(StorePath::parse(dir, &path.display(dir)).unwrap(), path);
    }
    assert!(StorePath::parse("store", &full("store", BASE)).is_err());
}

#[test]
fn every_hash_digit_and_name_character_counts() {
    let digits = "0123456789abcdfghijklmnpqrsvwxyz";
    let name = "azAZ09+-_?=.";
    let base = format!("{}-{}", digits, name);
    assert_eq!(StorePath::parse("/s", &full("/s", &base)).unwrap().base(), base);
    for digit in ["e", "o", "t", "u", "A", "-", "/", "\u{e9}"] {
        let base = format!("{}{}-x", &digits[..31], digit);
        assert!(StorePath::parse("/s", &full("/s", &base)).is_err(), "{}", base);
    }
    for c in ["/", " ", "!", "\u{e9}", "\u{0}", "~"] {
        let base = format!("{}-{}", digits, c);
        assert!(StorePath::parse("/s", &full("/s", &base)).is_err(), "{}", base);
    }
}

#[test]
fn lengths_of_a_store_path() {
    let hash = &BASE[..32];
    let named = |len: usize| format!("{}-{}", hash, "n".repeat(len));
    assert!(StorePath::parse("/s", &full("/s", &named(1))).is_ok());
    assert!(StorePath::parse("/s", &full("/s", &named(211))).is_ok());
    assert!(StorePath::parse("/s", &full("/s", &named(212))).is_err());
    assert!(StorePath::parse("/s", &full("/s", &named(0))).is_err());
    assert!(StorePath::parse("/s", &full("/s", hash)).is_err());
    assert!(StorePath::parse("/s", &full("/s", &BASE[1..])).is_err());
    assert!(StorePath::parse("/s", &full("/s", &format!("{}+x", hash))).is_err());
}

#[test]
fn refused_paths_are_named_in_the_error() {
    let message = |dir: &str, path: &str| match StorePath::parse(dir, path) {
        Err(VarlinkError::Protocol(text)) => text,
        other => panic!("{:?}", other),
    };
    assert_eq!(
        message("/nix/store", "relative"),
        "invalid store path 'relative': parse error relative, non-absolute store path \"relative\""
    );
    assert_eq!(
        message("/nix/store", "/elsewhere/x"),
        "invalid store path '/elsewhere/x': parse error /elsewhere/x, path \"/elsewhere/x\" is not in store"
    );
    assert_eq!(
        message("/nix/store", "/nix/store/short"),
        "invalid store path '/nix/store/short': parse error /nix/store/short, invalid store path hash length"
    );
    assert_eq!(
        message("/nix/store", "/nix/storex"),
        "invalid store path '/nix/storex': parse error /nix/storex, path \"/nix/storex\" is not in store"
    );
}

#[test]
fn error_for_an_invalid_path() {
    match invalid_path_error("p", "why") {
        VarlinkError::Protocol(text) => assert_eq!(text, "invalid store path 'p': why"),
        other => panic!("{:?}", other),
    }
}
