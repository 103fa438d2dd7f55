use aurora::plugin::{log_line, pack_ptr_len};
use aurora::{HostFunctions, PluginManifest, PluginState, StrMap};

#[test]
fn test_plugin_state_variables() {
    let mut state = PluginState::new();

    assert!(state.get_var("foo").is_none());

    state.set_var("foo", "bar");
    assert_eq!(state.get_var("foo"), Some("bar".to_string()));

    state.set_var("foo", "baz");
    assert_eq!(state.get_var("foo"), Some("baz".to_string()));
}

#[test]
fn test_plugin_state_with_initial_variables() {
    let mut vars = StrMap::new();
    vars.insert("key1".to_string(), "value1".to_string());
    vars.insert("key2".to_string(), "value2".to_string());

    let state = PluginState::with_variables(vars);

    assert_eq!(state.get_var("key1"), Some("value1".to_string()));
    assert_eq!(state.get_var("key2"), Some("value2".to_string()));
}

#[test]
fn test_plugin_state_logging() {
    let mut state = PluginState::new();

    state.log(2, "info message");
    state.log(4, "error message");

    let logs = state.get_logs();
    assert_eq!(logs.len(), 2);
    assert_eq!(logs[0].level, 2);
    assert_eq!(logs[0].message, "info message");
    assert_eq!(logs[1].level, 4);
    assert_eq!(logs[1].message, "error message");

    state.clear_logs();
    assert!(state.get_logs().is_empty());
}

#[test]
fn test_host_functions() {
    let mut host = HostFunctions::new();

    host.aurora_set_var("test", "value");
    assert_eq!(host.aurora_get_var("test"), "value");
    assert_eq!(host.aurora_get_var("nonexistent"), "");

    host.aurora_log(2, "test log");
    let logs = host.state().get_logs();
    assert_eq!(logs.len(), 1);
}

#[test]
fn test_minimal_manifest() {
    let manifest = PluginManifest::minimal("my-plugin", "0.1.0");
    assert_eq!(manifest.plugin.name, "my-plugin");
    assert_eq!(manifest.plugin.version, "0.1.0");
    assert_eq!(manifest.plugin.wasm, "plugin.wasm");
}

#[test]
fn test_pack_ptr_len() {
    let packed = pack_ptr_len(100, 50);
    let ptr = (packed >> 32) as i32;
    let len = (packed & 0xFFFFFFFF) as i32;
    assert_eq!(ptr, 100);
    assert_eq!(len, 50);
}

#[test]
fn pack_keeps_negative_and_extreme_values() {
    for (p, l) in [(-1, -1), (i32::MIN, i32::MAX), (0, -7), (123456, 0)] {
        let packed = pack_ptr_len(p, l);
        assert_eq!((packed >> 32) as i32, p);
        assert_eq!((packed & 0xFFFFFFFF) as i32, l);
    }
}

#[test]
fn log_line_tags_levels() {
    assert_eq!(log_line(0, "m"), "[TRACE] [plugin] m");
    assert_eq!(log_line(3, "m"), "[WARN] [plugin] m");
    assert_eq!(log_line(9, "m"), "[ERROR] [plugin] m");
}
