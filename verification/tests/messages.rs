use charge_overview::messages::{DeviceInfo, DeviceType, Stats};

#[test]
fn device_type_equality() {
    assert_eq!(DeviceType::Wcm, DeviceType::Wcm);
    assert_ne!(DeviceType::Wcm, DeviceType::Dq);
    assert_ne!(DeviceType::Dq, DeviceType::Fcup);
    assert_ne!(DeviceType::Fcup, DeviceType::Ict);
    assert_eq!(DeviceType::Ict, DeviceType::Ict);
}

#[test]
fn statistics_are_zero_by_default() {
    let stats = Stats::default();
    assert_eq!(stats.mean.to_bits(), 0);
    assert_eq!(stats.min.to_bits(), 0);
    assert_eq!(stats.max.to_bits(), 0);
    assert_eq!(stats.rmsd.to_bits(), 0);
}

#[test]
fn device_info_holds_what_identifies_a_device() {
    let info = DeviceInfo {
        name: "WCM".to_string(),
        device_type: DeviceType::Wcm,
        sensitivities: vec![3, 4],
    };
    assert_eq!(info.name, "WCM");
    assert_eq!(info.device_type, DeviceType::Wcm);
    assert_eq!(info.sensitivities, vec![3, 4]);
}
