use plugin_bridge::error::{ErrorSlot, PluginError};
use plugin_bridge::version::{
    get_plugin_version, may_call, pack_version, unpack_version, PROTOCOL_MAJOR, PROTOCOL_MINOR,
};

#[test]
fn version_word_packs_and_unpacks() {
    let packed = pack_version(3, 7);
    assert_eq!(packed, (3 << 16) + 7);
    assert_eq!(unpack_version(packed), (3, 7));
    let probe = get_plugin_version();
    assert_eq!(unpack_version(probe), (PROTOCOL_MAJOR, PROTOCOL_MINOR));
}

#[test]
fn version_gate_refuses_major_mismatch() {
    // A caller probing a plugin with a different major version must refuse
    // to call its entry points; a minor difference is additive and accepted.
    let host = pack_version(1, 4);
    assert!(may_call(host, pack_version(1, 0)));
    assert!(may_call(host, pack_version(1, 9)));
    assert!(!may_call(host, pack_version(2, 4)));
    assert!(!may_call(host, pack_version(0, 4)));
}

#[test]
fn slot_starts_empty_and_only_moves_forward() {
    let mut slot = ErrorSlot::new();
    assert!(slot.last_message().is_none());
    slot.record(&PluginError::Buffer("short buffer".to_string()));
    assert_eq!(slot.last_message().unwrap().as_str(), "buffer error: short buffer");
    slot.record(&PluginError::Format("bad format".to_string()));
    assert_eq!(slot.last_message().unwrap().as_str(), "format error: bad format");
    slot.record_panic();
    assert_eq!(slot.last_message().unwrap().as_str(), "PANIC");
    slot.record(&PluginError::Kwargs("missing field: capitalize".to_string()));
    assert_eq!(slot.last_message().unwrap().as_str(), "kwargs error: missing field: capitalize");
}

#[test]
fn panic_sentinel_is_distinguishable() {
    let mut a = ErrorSlot::new();
    a.record_panic();
    let mut b = ErrorSlot::new();
    b.record(&PluginError::Compute("PANIC".to_string()));
    assert_ne!(a.last_message().unwrap(), b.last_message().unwrap());
}
