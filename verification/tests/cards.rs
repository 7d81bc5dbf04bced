use astral_watch::cards::{
    cards, gpu_at, is_gpu_class, model_for, nvidia_gpus, DeviceEntry, GpuInfo, ASUS_VENDOR,
};

#[test]
fn gpu_class_matches_vga_and_3d_only() {
    assert!(is_gpu_class("0x030000")); // VGA controller
    assert!(is_gpu_class("0x030200")); // 3D controller (secondary GPU)
    assert!(is_gpu_class("0x030000\n")); // trailing newline from sysfs
    assert!(!is_gpu_class("0x010802")); // NVMe
    assert!(!is_gpu_class("0x040300")); // audio (the GPU's HDMI audio function)
}

#[test]
fn model_lookup() {
    assert_eq!(model_for(0x8a2e), Some("ROG Astral RTX 5090 (variant)"));
    assert_eq!(model_for(0x0000), None);
    let g = GpuInfo {
        pci: "0000:0b:00.0".into(),
        subsystem_vendor: ASUS_VENDOR,
        subsystem_device: 0x89ed,
    };
    assert!(g.is_asus());
    assert_eq!(g.model(), Some("ROG Astral RTX 5090 O32G Gaming"));
}

fn entry(name: &str, vendor: &str, class: &str, device: &str) -> DeviceEntry {
    DeviceEntry {
        name: Some(name.to_string()),
        vendor: Some(vendor.to_string()),
        class: Some(class.to_string()),
        subsystem_vendor: Some("0x1043\n".to_string()),
        subsystem_device: Some(device.to_string()),
    }
}

#[test]
fn every_listed_card_has_its_own_name() {
    let all = cards();
    assert_eq!(all.len(), 7);
    for c in &all {
        assert_eq!(model_for(c.subsystem), Some(c.model));
    }
}

#[test]
fn attributes_describe_a_gpu() {
    let g = gpu_at(&entry("0000:0b:00.0", "0x10de\n", "0x030000\n", "0x89ed\n")).unwrap();
    assert_eq!(g.pci, "0000:0b:00.0");
    assert_eq!(g.subsystem_vendor, 0x1043);
    assert_eq!(g.subsystem_device, 0x89ed);
    assert!(gpu_at(&entry("x", "0x8086\n", "0x030000\n", "0x1\n")).is_none());
    assert!(gpu_at(&entry("x", "0x10de\n", "0x040300\n", "0x1\n")).is_none());
    let mut unreadable = entry("x", "0x10de\n", "0x030200\n", "junk");
    unreadable.subsystem_vendor = None;
    let g = gpu_at(&unreadable).unwrap();
    assert_eq!((g.subsystem_vendor, g.subsystem_device), (0, 0));
    unreadable.class = None;
    assert!(gpu_at(&unreadable).is_none());
}

#[test]
fn gpus_are_sorted_by_address() {
    let list = vec![
        entry("0000:17:00.0", "0x10de", "0x030200", "0x89ec"),
        entry("0000:02:00.0", "0x8086", "0x030000", "0x1"),
        entry("0000:0b:00.0", "0x10de", "0x030000", "0x89ed"),
    ];
    let found: Vec<String> = nvidia_gpus(&list).into_iter().map(|g| g.pci).collect();
    assert_eq!(found, vec!["0000:0b:00.0", "0000:17:00.0"]);
}
