use tuxinjector::config_diff::{config_changes, log_config_change, precedes, values_agree};
use tuxinjector::dlsym_hook::Platform;
use tuxinjector::json::parse_json;
use tuxinjector::liblogger::{
    check_hash, find_latest_hash, load_plan, logger_file, may_embed, version_numbers, HashCheck,
};
use tuxinjector::tux_log::{
    base62, begin_rotation, civil_from_epoch, config_base_dir, config_id, fnv1a64, human_timestamp,
    local_timestamp, log_file_name, logs_dir, parent_dir, registry_url, unique_path,
};
use tuxinjector::{apply_log_filter, data_subpath, DebugSettings};

#[test]
fn civil_known_dates() {
    assert_eq!(civil_from_epoch(0), (1970, 1, 1, 0, 0, 0));
    assert_eq!(civil_from_epoch(1_700_000_000), (2023, 11, 14, 22, 13, 20));
}

#[test]
fn leap_days_are_known() {
    assert_eq!(civil_from_epoch(951_782_400), (2000, 2, 29, 0, 0, 0));
    assert_eq!(civil_from_epoch(951_782_399), (2000, 2, 28, 23, 59, 59));
    assert_eq!(civil_from_epoch(4_107_542_400), (2100, 3, 1, 0, 0, 0));
}

#[test]
fn timestamp_has_no_colon() {
    let s = local_timestamp(1_700_000_000, None);
    assert!(!s.contains(':'), "filename stamp must be filesystem-safe: {s}");
    assert_eq!(s.len(), 19, "unexpected stamp shape: {s}");
    let s = local_timestamp(1_700_000_000, Some((2023, 11, 14, 23, 13, 20)));
    assert!(!s.contains(':'), "filename stamp must be filesystem-safe: {s}");
    assert_eq!(s, "2023-11-14_23-13-20");
    assert_eq!(human_timestamp(0, None), "1970-01-01 00:00:00");
}

#[test]
fn fnv64_stable() {
    assert_eq!(fnv1a64(b""), 0xcbf2_9ce4_8422_2325);
    assert_eq!(fnv1a64(b"a"), 0xaf63_dc4c_8601_ec8c);
    assert_eq!(fnv1a64(b"foobar"), 0x8594_4171_f739_67e8);
}

#[test]
fn base62_shape() {
    let s = base62(0, 8);
    assert_eq!(s, "00000000");
    let s = base62(u64::MAX, 8);
    assert_eq!(s.len(), 8);
    assert!(s.bytes().all(|c| c.is_ascii_alphanumeric()));
    assert_ne!(base62(1, 8), base62(2, 8));
}

#[test]
fn config_id_is_8_chars_and_deterministic() {
    let a = config_id("{\"input\":{\"mouse_sensitivity\":1.0}}");
    let b = config_id("{\"input\":{\"mouse_sensitivity\":1.0}}");
    assert_eq!(a.len(), 8, "id must be 8 chars, got {a:?}");
    assert_eq!(a, b, "same config must yield the same id");
    assert!(a.bytes().all(|c| c.is_ascii_alphanumeric()));
    let changed = config_id("{\"input\":{\"mouse_sensitivity\":2.5}}");
    assert_ne!(changed, a, "changed config should change the id");
    assert_eq!(config_id("\u{e9}"), base62(fnv1a64("\u{e9}".as_bytes()), 8));
}

#[test]
fn log_files_get_free_names() {
    let mut taken = vec![false; 1000];
    assert_eq!(unique_path("s", &taken, 9), log_file_name("s", 0));
    assert_eq!(log_file_name("s", 0), "s.log");
    taken[0] = true;
    assert_eq!(unique_path("s", &taken, 9), log_file_name("s", 1));
    let taken = vec![true; 1000];
    assert_eq!(unique_path("s", &taken, 9), "s_9.log");
    let mut rotated = false;
    assert!(begin_rotation(&mut rotated));
    assert!(!begin_rotation(&mut rotated));
}

#[test]
fn log_directory_follows_the_environment() {
    let s = |t: &str| Some(t.to_string());
    assert_eq!(config_base_dir(s("/a"), s("/b"), s("/c")), s("/a"));
    assert_eq!(config_base_dir(None, s("/b"), s("/c")), s("/b/tuxinjector"));
    assert_eq!(config_base_dir(None, None, s("/c")), s("/c/.config/tuxinjector"));
    assert_eq!(config_base_dir(None, None, None), None);
    assert_eq!(logs_dir(None, None, s("/c")), s("/c/.config/tuxinjector/logs"));
}

#[test]
fn the_configuration_file_has_a_directory() {
    assert_eq!(parent_dir("/home/u/init.lua"), Some("/home/u".to_string()));
    assert_eq!(parent_dir("init.lua"), Some(String::new()));
    assert_eq!(parent_dir("/"), None);
    assert_eq!(parent_dir(""), None);
    let paths = [
        "", "/", "//", ".", "..", "./", "/.", "/..", "./.", "././a", "a", "a/", "a/b", "a//b", "a/./b",
        "a/.", "a/./", "a/..", "/a", "/a/", "//a", "/./a", "./a", "../a", ".a", "a/.b", "a/b/../c//",
        "/x y/\u{e4}/c.lua",
    ];
    for p in paths {
        let std_parent = std::path::Path::new(p).parent().map(|d| d.to_string_lossy().into_owned());
        assert_eq!(parent_dir(p), std_parent, "{p}");
    }
}

#[test]
fn hashes_are_held_against_the_list() {
    assert_eq!(check_hash(Some("ab"), "ab"), HashCheck::Matches);
    assert_eq!(check_hash(Some("ab"), "AB"), HashCheck::Differs);
    assert_eq!(check_hash(None, "ab"), HashCheck::NotListed);
    assert!(may_embed(HashCheck::Matches, false, false));
    assert!(may_embed(HashCheck::NotListed, false, false));
    assert!(!may_embed(HashCheck::Differs, true, false));
    assert!(!may_embed(HashCheck::Differs, false, true));
    assert!(may_embed(HashCheck::Differs, true, true));
}

#[test]
fn registry_addresses_are_joined() {
    assert_eq!(registry_url(" https://r/x/ ", "id"), Some("https://r/x/id".to_string()));
    assert_eq!(registry_url("  ", "id"), None);
}

#[test]
fn changed_settings_are_listed() {
    let a = parse_json("{\"a\": 1, \"b\": {\"c\": \"x\", \"d\": [1, 2]}}").unwrap();
    let b = parse_json("{\"a\": 2, \"b\": {\"c\": \"x\", \"d\": [1, 3]}}").unwrap();
    let changes = config_changes(&a, &b);
    assert_eq!(changes.len(), 2);
    assert_eq!((changes[0].path.as_str(), changes[0].before.as_str()), ("a", "1"));
    assert_eq!(changes[0].after, "2");
    assert!(changes[1].path.starts_with("b.d"));
    assert!(config_changes(&a, &a).is_empty());
    assert!(values_agree(&a, &a) && !values_agree(&a, &b));
    assert!(precedes("a", "b") && !precedes("b", "a") && precedes("a", "ab"));
    assert!(log_config_change("{", "{}").is_none());
    assert_eq!(log_config_change("{}", "{}").unwrap().len(), 0);
}

#[test]
fn log_rules_name_the_asked_parts() {
    let mut d = DebugSettings {
        log_mode_switch: false,
        log_animation: false,
        log_hotkey: false,
        log_window_overlay: false,
        log_file_monitor: false,
        log_image_monitor: false,
        log_performance: false,
        log_texture_ops: false,
        log_gui: false,
        log_init: false,
        log_overlay: false,
    };
    let base = "tuxinjector=warn,tuxinjector_config=warn,tuxinjector_gl_interop=warn,\
                tuxinjector_render=warn,tuxinjector::config_code=info";
    assert_eq!(apply_log_filter(&d), base);
    d.log_hotkey = true;
    d.log_gui = true;
    assert_eq!(
        apply_log_filter(&d),
        format!("{base},tuxinjector::input_handler=debug,tuxinjector::gui_renderer=debug")
    );
    assert_eq!(data_subpath(Platform::Linux), ".local/share/tuxinjector");
    assert_eq!(data_subpath(Platform::MacOs), ".config/tuxinjector");
}

#[test]
fn newest_logger_is_found() {
    let list = "file,version,hash\r\n\
                liblogger_x64.so,1.0.1,aa\r\n\
                other.so,9.9,zz\r\n\
                liblogger_x64.so,1.0.10, bb \r\n\
                liblogger_x64.so,1.0.2,cc\r\n";
    assert_eq!(find_latest_hash(list, "liblogger_x64.so"), Some("bb".to_string()));
    assert_eq!(find_latest_hash(list, "none.so"), None);
    assert_eq!(find_latest_hash("h\nbroken\nliblogger_x64.so,1,aa", "liblogger_x64.so"), None);
    assert_eq!(find_latest_hash("", "x"), None);
    assert_eq!(version_numbers("1.0.x.12"), vec![1, 0, 12]);
    assert_eq!(logger_file("x86_64"), Some("liblogger_x64.so"));
    assert_eq!(logger_file("riscv64"), None);
    assert_eq!(load_plan(0, "/tmp", 7, "f"), None);
    assert_eq!(
        load_plan(1, "/tmp", 7, "f"),
        Some(("/tmp/tuxinjector-7".to_string(), "/tmp/tuxinjector-7/f".to_string()))
    );
}

#[test]
fn small_numbers_have_their_own_digits() {
    let mut seen: Vec<String> = Vec::new();
    for v in 0..(62 * 62) {
        let text = base62(v, 2);
        assert_eq!(text.len(), 2);
        assert!(!seen.contains(&text));
        seen.push(text);
    }
    assert_eq!(base62(61, 2), "0z");
    assert_eq!(base62(62, 2), "10");
    assert_eq!(base62(62 * 62, 2), "00");
}
