use devlog::config::Config;
use devlog::server::{ServerConfig, extract_project_name, html_escape};

#[test]
fn html_escape_replaces_the_four_special_characters() {
    assert_eq!(html_escape("a & b < c > d \" e"), "a &amp; b &lt; c &gt; d &quot; e");
    assert_eq!(html_escape("plain"), "plain");
    assert_eq!(html_escape(""), "");
    assert_eq!(html_escape("<<>>"), "&lt;&lt;&gt;&gt;");
}

#[test]
fn project_name_is_the_last_nonempty_component() {
    assert_eq!(extract_project_name("/home/dev/proj"), "proj");
    assert_eq!(extract_project_name("/home/dev/proj/"), "proj");
    assert_eq!(extract_project_name("c:\\work\\thing"), "thing");
    assert_eq!(extract_project_name("mixed\\sep/last"), "last");
    assert_eq!(extract_project_name("solo"), "solo");
    assert_eq!(extract_project_name(""), "unknown");
    assert_eq!(extract_project_name("///"), "unknown");
}

#[test]
fn config_defaults_to_a_disabled_local_push() {
    let c = Config::default();
    let push = c.push.unwrap();
    assert_eq!(push.endpoint, "http://localhost:8090/ingest");
    assert!(!push.enabled);
}

#[test]
fn server_config_defaults() {
    let c = ServerConfig::default();
    assert_eq!(c.storage_dir, "/store/devolver");
    assert_eq!(c.port, 8090);
}
