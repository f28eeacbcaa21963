use pubsub::matcher::topic_matches;
use pubsub::text::{str_contains, str_eq, str_starts_with, u32_dec};
use pubsub::ardulink::{ArdulinkConfig, ArdulinkConnectionType};
use pubsub::util::format_topic;
use pubsub::info::TaskInfo;

#[test]
fn test_matches_exact() {
    assert!(topic_matches("foo/bar", "foo/bar"));
    assert!(topic_matches("", ""));
}

#[test]
fn test_matches_wildcard() {
    // a pattern holding `*` is a full-string wildcard match
    assert!(topic_matches("foo/*", "foo/bar"));
    assert!(topic_matches("foo/*", "foo/bar/baz"));
    assert!(topic_matches("*", "anything"));
    assert!(topic_matches("a*c", "abc"));
    assert!(topic_matches("a*c", "ac"));
    assert!(!topic_matches("foo/*", "fo"));
    assert!(!topic_matches("a*c", "abd"));
    // the match is over the whole string, not a substring search
    assert!(!topic_matches("o/*", "foo/bar"));
}

#[test]
fn test_matches_path_substring() {
    // a slash pattern without `*` matches as substring or prefix
    assert!(topic_matches("foo/bar", "foo/bar/baz"));
    assert!(topic_matches("bar/baz", "foo/bar/baz"));
    assert!(!topic_matches("bar/qux", "foo/bar/baz"));
}

#[test]
fn test_matches_prefix() {
    // a plain pattern matches any topic it prefixes
    assert!(topic_matches("test_", "test_pub"));
    assert!(topic_matches("test", "test"));
    assert!(!topic_matches("test_x", "test_pub"));
}

#[test]
fn test_string_helpers() {
    assert!(str_eq("abc", "abc"));
    assert!(!str_eq("abc", "abd"));
    assert!(!str_eq("abc", "ab"));
    assert!(str_starts_with("abcdef", "abc"));
    assert!(!str_starts_with("ab", "abc"));
    assert!(str_contains("abcdef", "cde"));
    assert!(!str_contains("abcdef", "ced"));
    assert!(str_contains("abcdef", ""));
    assert_eq!(u32_dec(0), "0");
    assert_eq!(u32_dec(57600), "57600");
}

#[test]
fn test_connection_string() {
    let serial = ArdulinkConnectionType::Serial("/dev/ttyUSB0".to_string(), 57600);
    assert_eq!(serial.connection_string(), "serial:/dev/ttyUSB0:57600");
    assert_eq!(serial.get_port(), 57600);

    let udp = ArdulinkConnectionType::Udp("0.0.0.0".to_string(), 14550);
    assert_eq!(udp.connection_string(), "udpin:0.0.0.0:14550");
    assert_eq!(udp.get_port(), 14550);

    let tcp = ArdulinkConnectionType::Tcp("127.0.0.1".to_string(), 5760);
    assert_eq!(tcp.connection_string(), "tcpout:127.0.0.1:5760");

    let cfg = ArdulinkConfig::new(ArdulinkConnectionType::Udp("h".to_string(), 1));
    assert_eq!(cfg.connection.get_port(), 1);
}

#[test]
fn test_format_topic() {
    assert_eq!(format_topic("a/b", false), "[a/b]");
    assert_eq!(format_topic("a/b", true), "[\u{1b}[95ma/b\u{1b}[0m]");
}

#[test]
fn test_task_info_identity() {
    let a = TaskInfo::new("worker");
    let b = TaskInfo::new("worker");
    let c = TaskInfo::new("other");
    assert_eq!(a.id, b.id);
    assert!(a.same_task(&b));
    assert!(!a.same_task(&c));
    assert!(!a.insta_spawn);
    assert!(a.clone().with_insta_spawn().insta_spawn);
}
