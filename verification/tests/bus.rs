use astral_watch::decode::RAW_LEN;
use astral_watch::i2c::{
    bus_link, detect_bus, device_path, is_pci_bdf, is_permission_denied, norm_pci, nvidia_buses,
    opening_error, pci_id_from_path, probe_bus, probe_refused, read_raw, read_raw_from,
    read_reading, redetect_card, register_error, BusEntry, BusError, Detect, IoKind, Probe,
    ReadError, RegReader, Scan, CHIP_ADDR, CHIP_ADDR_STR, REG_BASE,
};
use astral_watch::recorder::Recorder;

/// Mock chip: serves `regs`, switching to `regs_after` once `switch_after` reads have
/// happened (simulates the MCU updating values mid-read).
struct MockChip {
    regs: [u8; RAW_LEN],
    regs_after: [u8; RAW_LEN],
    switch_after: u32,
    reads: u32,
}

impl RegReader for MockChip {
    fn read_reg(&mut self, reg: u8) -> Result<u8, ReadError> {
        let i = (reg - REG_BASE) as usize;
        let v = if self.reads < self.switch_after {
            self.regs[i]
        } else {
            self.regs_after[i]
        };
        self.reads += 1;
        Ok(v)
    }
}

fn steady(regs: [u8; RAW_LEN]) -> Recorder<MockChip> {
    Recorder::new(MockChip {
        regs,
        regs_after: regs,
        switch_after: u32::MAX,
        reads: 0,
    })
}

/// A chip whose every read fails, or whose high bytes never settle.
struct BadChip {
    fails: bool,
    reads: u32,
}

impl RegReader for BadChip {
    fn read_reg(&mut self, _reg: u8) -> Result<u8, ReadError> {
        self.reads += 1;
        if self.fails {
            Err(ReadError {
                message: "gone".to_string(),
            })
        } else {
            Ok(self.reads as u8)
        }
    }
}

#[test]
fn stable_chip_reads_through() {
    let regs: [u8; RAW_LEN] = std::array::from_fn(|i| i as u8);
    let mut chip = steady(regs);
    assert_eq!(read_raw_from(&mut chip).unwrap(), regs);
    // hi, lo, hi-confirm per u16: exactly 3 reads per pair when stable
    assert_eq!(chip.inner().reads, (RAW_LEN as u32 / 2) * 3);
}

#[test]
fn torn_u16_is_rejected() {
    // value at reg 0x80/0x81 is 0x20FF, becomes 0x2100 after the first (hi) read —
    // a naive hi,lo read would return the torn 0x2000
    let mut regs = [0u8; RAW_LEN];
    regs[0] = 0x20;
    regs[1] = 0xFF;
    let mut after = regs;
    after[0] = 0x21;
    after[1] = 0x00;
    let mut chip = Recorder::new(MockChip {
        regs,
        regs_after: after,
        switch_after: 1,
        reads: 0,
    });
    let buf = read_raw_from(&mut chip).unwrap();
    assert_eq!(
        [buf[0], buf[1]],
        [0x21, 0x00],
        "must re-read, never return the torn pair"
    );
}

#[test]
fn chip_addr_str_matches_const() {
    let parsed = u16::from_str_radix(CHIP_ADDR_STR.trim_start_matches("0x"), 16).unwrap();
    assert_eq!(parsed, CHIP_ADDR);
}

#[test]
fn pci_id_extracted_from_sysfs_path() {
    // real shape: /sys/class/i2c-dev/i2c-0 resolves through the GPU's PCI function
    assert_eq!(
        pci_id_from_path("/sys/devices/pci0000:00/0000:00:03.1/0000:0b:00.0/i2c-0/i2c-dev/i2c-0"),
        Some("0000:0b:00.0".to_string()),
        "must pick the deepest BDF (the GPU), not the bridge or the pci0000:00 root"
    );
    assert_eq!(
        pci_id_from_path("/sys/devices/platform/whatever/i2c-9"),
        None
    );
    assert!(is_pci_bdf("0000:0b:00.0"));
    assert!(!is_pci_bdf("pci0000:00"));
    assert!(!is_pci_bdf("0000:0b:00.")); // wrong length
    assert!(!is_pci_bdf("zzzz:0b:00.0")); // non-hex
}

#[test]
fn norm_pci_reconciles_domain_width_but_keeps_domains_distinct() {
    // sysfs (4-hex) and NVML/nvidia-smi (8-hex, upper) forms of the same card match
    assert_eq!(norm_pci("0000:0b:00.0"), norm_pci("00000000:0B:00.0"));
    // but a same-bus:device.function card in a *different* PCI domain must NOT collide
    assert_ne!(norm_pci("0000:0b:00.0"), norm_pci("0001:0b:00.0"));
    assert_eq!(norm_pci("0000:0b:00.0"), "00000000:0b:00.0");
}

#[test]
fn norm_pci_keeps_what_has_no_domain() {
    assert_eq!(norm_pci("  I2C-7\n"), "i2c-7");
    assert_eq!(norm_pci("XYZ:0B:00.0"), "xyz:0b:00.0");
}

#[test]
fn permission_denied_is_classified_distinctly() {
    // the open-time denial — the real path when not in the i2c group
    assert!(is_permission_denied(&BusError::Io(
        IoKind::PermissionDenied
    )));
    // and an ioctl-time denial via errno (EACCES / EPERM)
    assert!(is_permission_denied(&BusError::Errno(13)));
    assert!(is_permission_denied(&BusError::Errno(1)));

    // a genuinely idle/absent chip is NOT a permission problem
    assert!(!is_permission_denied(&BusError::Io(IoKind::NotFound)));
    assert!(!is_permission_denied(&BusError::Io(IoKind::TimedOut)));
    assert!(!is_permission_denied(&BusError::Errno(6))); // ENXIO
}

#[test]
fn errors_name_the_step_they_happened_in() {
    assert_eq!(device_path(7), "/dev/i2c-7");
    assert_eq!(bus_link(7), "/sys/class/i2c-dev/i2c-7");
    assert_eq!(
        opening_error(7, 0x2b, "denied").message,
        "opening /dev/i2c-7 @ 0x2b: denied"
    );
    assert_eq!(
        register_error(0x80, "nak").message,
        "read reg 0x80: nak"
    );
    let mut dead = Recorder::new(BadChip {
        fails: true,
        reads: 0,
    });
    assert_eq!(
        read_raw(&mut dead, 3, 0x2b).unwrap_err().message,
        "reading /dev/i2c-3 @ 0x2b: gone"
    );
    assert_eq!(dead.inner().reads, 1);
    assert!(read_reading(&mut dead, 3, 0x2b).is_err());
}

#[test]
fn a_value_that_never_settles_costs_a_bounded_number_of_reads() {
    let mut chip = Recorder::new(BadChip {
        fails: false,
        reads: 0,
    });
    let buf = read_raw_from(&mut chip).unwrap();
    // the last of three re-reads is taken: eight reads per word
    assert_eq!([buf[0], buf[1]], [7, 8]);
    assert_eq!(chip.inner().reads, 96);
}

#[test]
fn probes_tell_plausible_chips_apart() {
    let mut regs = [0u8; RAW_LEN];
    assert_eq!(probe_bus(&mut steady(regs)), Probe::Other);
    regs[0] = 0x2e;
    regs[1] = 0xe0; // 12.000 V on one pin
    assert_eq!(probe_bus(&mut steady(regs)), Probe::Plausible);
    assert_eq!(probe_refused(&BusError::Errno(13)), Probe::PermissionDenied);
    assert_eq!(probe_refused(&BusError::Errno(6)), Probe::Other);
}

#[test]
fn detection_reports_why_nothing_answered() {
    let buses = vec![3u32, 5];
    assert_eq!(
        detect_bus(&vec![], &vec![]),
        Scan::Done(Detect::NoBuses)
    );
    assert_eq!(detect_bus(&buses, &vec![]), Scan::Probe(3));
    assert_eq!(detect_bus(&buses, &vec![Probe::Other]), Scan::Probe(5));
    assert_eq!(
        detect_bus(&buses, &vec![Probe::Other, Probe::Plausible]),
        Scan::Done(Detect::Found(5))
    );
    assert_eq!(
        detect_bus(&buses, &vec![Probe::PermissionDenied, Probe::Other]),
        Scan::Done(Detect::PermissionDenied)
    );
    assert_eq!(
        detect_bus(&buses, &vec![Probe::Other, Probe::Other]),
        Scan::Done(Detect::NoTelemetry)
    );
}

#[test]
fn redetection_never_migrates_to_another_card() {
    let buses = vec![
        (3u32, Some("0000:17:00.0".to_string())),
        (4, None),
        (9, Some("0000:0b:00.0".to_string())),
    ];
    assert_eq!(
        redetect_card(&buses, "0000:0b:00.0", &vec![]),
        Scan::Probe(9)
    );
    assert_eq!(
        redetect_card(&buses, "0000:0b:00.0", &vec![Probe::Plausible]),
        Scan::Done(Detect::Found(9))
    );
    assert_eq!(
        redetect_card(&buses, "0000:0b:00.0", &vec![Probe::Other]),
        Scan::Done(Detect::NoTelemetry)
    );
    assert_eq!(
        redetect_card(&buses, "0001:0b:00.0", &vec![]),
        Scan::Done(Detect::NoBuses)
    );
}

#[test]
fn nvidia_buses_are_filtered_and_ascending() {
    let e = |name: &str, adapter: &str| BusEntry {
        file_name: Some(name.to_string()),
        adapter: Some(adapter.to_string()),
    };
    let list = vec![
        e("i2c-12", "NVIDIA i2c adapter 1 at b:00.0\n"),
        e("i2c-3", "NVIDIA i2c adapter 4 at b:00.0\n"),
        e("i2c-1", "SMBus I801 adapter\n"),
        e("i2c-x", "NVIDIA i2c adapter\n"),
        e("other", "NVIDIA i2c adapter\n"),
        BusEntry {
            file_name: None,
            adapter: Some("NVIDIA".to_string()),
        },
        BusEntry {
            file_name: Some("i2c-2".to_string()),
            adapter: None,
        },
    ];
    assert_eq!(nvidia_buses(&list), vec![3, 12]);
}

#[test]
fn norm_pci_is_final() {
    for id in [
        "0000:0b:00.0",
        " 0001:0B:00.0\n",
        "+f:A",
        "ABCDEF012:0b",
        "i2c-7",
        ":x",
        "",
        "7:",
    ] {
        let once = norm_pci(id);
        assert_eq!(norm_pci(&once), once, "{id:?}");
    }
    assert_eq!(norm_pci("+f:A"), "0000000f:a");
}
