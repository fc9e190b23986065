//! Findings about the machine.
use savio::hardware::{
    battery_check, collect, disk_checks, gpu_check, network_check, read_gpu_info, usb_check,
    AdapterReading, BatteryProbe, BatteryReading, BatteryState, CpuReading, DiskKind, DiskReading,
    GpuInfo, GpuKind, MemoryReading, NetworkReading, Readings, SystemReading, UsbProbe, UsbReading,
    UsbSpeed, Wear, USB_CLASS_HUB, USB_LIMIT,
};
use savio::report::{check_color, Check, CheckRow, CheckStatus, SystemReport};
use savio::tone::Tone;
use savio::units::{human_bytes, human_duration, human_mhz, human_uptime, usb_version};

fn sample() -> SystemReport {
    SystemReport {
        checks: vec![
            Check {
                name: "Процессор".to_owned(),
                status: CheckStatus::Fine,
                summary: "Тестовый камень".to_owned(),
                rows: vec![
                    CheckRow::new("Модель", "Тестовый камень"),
                    CheckRow::missing("Частота"),
                ],
                advice: None,
            },
            Check {
                name: "Батарея".to_owned(),
                status: CheckStatus::Warning,
                summary: "Заряд 50%, износ 60%".to_owned(),
                rows: vec![CheckRow::missing("Циклов заряда")],
                advice: Some("Батарея изношена.".to_owned()),
            },
        ],
    }
}

/// A machine that tells nothing of itself.
fn silent() -> Readings {
    Readings {
        system: SystemReading {
            name: None,
            kernel: None,
            host: None,
            arch: "x86_64".to_owned(),
            uptime_secs: 60,
        },
        cpu: CpuReading {
            brand: None,
            vendor: None,
            physical_cores: None,
            logical_cores: 0,
            mhz: None,
            load: None,
        },
        memory: MemoryReading {
            total: 0,
            available: 0,
            used: 0,
            total_swap: 0,
            used_swap: 0,
        },
        disks: Vec::new(),
        networks: Vec::new(),
        battery: BatteryProbe::Absent,
        usb: UsbProbe::Listed(Vec::new()),
    }
}

#[test]
fn collect_names_every_check_it_returns() {
    let mut told = silent();
    told.system.name = Some("Тестовая система".to_owned());
    told.cpu.brand = Some("Тестовый камень".to_owned());
    told.cpu.logical_cores = 8;
    told.memory.total = 16 * 1024 * 1024 * 1024;
    told.memory.available = 8 * 1024 * 1024 * 1024;
    told.networks.push(NetworkReading {
        name: "eth0".to_owned(),
        mac: None,
    });

    for readings in [silent(), told] {
        let report = collect(&readings, &None);

        for expected in ["Система", "Процессор", "Память", "Сеть", "Батарея"] {
            assert!(
                report.checks.iter().any(|c| c.name == expected),
                "в отчёте нет пункта «{expected}»"
            );
        }

        for check in &report.checks {
            assert!(!check.name.is_empty(), "пункт без имени");
            assert!(!check.summary.is_empty(), "пункт «{}» без итога", check.name);
        }
    }
}

#[test]
fn missing_value_never_becomes_a_zero() {
    let row = CheckRow::missing("Частота");
    assert!(row.value.is_none());

    assert_eq!(human_mhz(0), None);
    assert_eq!(human_mhz(2400).as_deref(), Some("2.40 ГГц"));
    assert_eq!(human_mhz(800).as_deref(), Some("800 МГц"));
}

#[test]
fn tally_counts_each_outcome_apart() {
    let t = sample().tally();
    assert_eq!(t.ok, 1);
    assert_eq!(t.warning, 1);
    assert_eq!(t.failed, 0);
    assert_eq!(t.unknown, 0);
}

#[test]
fn headline_never_promises_that_nothing_is_wrong() {
    let all_fine = SystemReport {
        checks: vec![Check {
            name: "Память".to_owned(),
            status: CheckStatus::Fine,
            summary: "много".to_owned(),
            rows: Vec::new(),
            advice: None,
        }],
    };

    let text = all_fine.headline();
    assert!(
        !text.contains("роблем"),
        "итог не должен обещать отсутствие проблем: {text}"
    );
    assert!(text.contains('1'), "итог должен пересчитывать пункты: {text}");

    let mixed = sample().headline();
    assert!(mixed.contains("замечанием"), "{mixed}");
}

#[test]
fn saved_report_keeps_the_dash_where_there_was_no_value() {
    let text = sample().to_text();

    assert!(
        text.contains("Частота: —"),
        "пропавшее значение должно сохраниться прочерком:\n{text}"
    );
    assert!(text.contains("Циклов заряда: —"), "{text}");
    assert!(text.contains("Совет: Батарея изношена."), "{text}");
    assert!(text.contains("[Внимание] Батарея"), "{text}");
}

#[test]
fn usb_version_reads_the_binary_coded_field() {
    assert_eq!(usb_version(0x0200), "2.0");
    assert_eq!(usb_version(0x0110), "1.1");
    assert_eq!(usb_version(0x0300), "3.0");
    assert_eq!(usb_version(0x0310), "3.1");
    assert_eq!(usb_version(0x0201), "2.0.1");
}

#[test]
fn uptime_is_written_the_way_a_person_reads_it() {
    assert_eq!(human_uptime(0), "0 минут");
    assert_eq!(human_uptime(60), "1 минута");
    assert_eq!(human_uptime(3 * 60), "3 минуты");
    assert_eq!(human_uptime(3600), "1 час");
    assert_eq!(human_uptime(3600 + 120), "1 час 2 минуты");
    assert_eq!(human_uptime(86_400), "1 день");
    assert_eq!(human_uptime(2 * 86_400 + 4 * 3600), "2 дня 4 часа");
    assert_eq!(human_uptime(5 * 86_400), "5 дней");
    assert_eq!(human_uptime(11 * 86_400), "11 дней");
    assert_eq!(human_uptime(21 * 86_400), "21 день");
}

#[test]
fn sizes_and_lengths_are_written_for_people() {
    assert_eq!(human_bytes(0), "0 Б");
    assert_eq!(human_bytes(1023), "1023 Б");
    assert_eq!(human_bytes(1536), "1.5 КБ");
    assert_eq!(human_bytes(5 * 1024 * 1024), "5.0 МБ");
    assert_eq!(human_bytes(3 * 1024 * 1024 * 1024), "3.0 ГБ");
    assert_eq!(human_bytes(2 * 1024 * 1024 * 1024 * 1024), "2.0 ТБ");
    assert_eq!(human_duration(5), "0:05");
    assert_eq!(human_duration(3725), "1:02:05");
}

fn battery() -> BatteryReading {
    BatteryReading {
        full: Some("45.0 Вт·ч".to_owned()),
        design: Some("50.0 Вт·ч".to_owned()),
        charge: Some("50%".to_owned()),
        wear: Some(Wear {
            percent: "10%".to_owned(),
            worn: false,
        }),
        state: BatteryState::Discharging,
        cycles: None,
        voltage: "12.0 В".to_owned(),
        power: "8.0 Вт".to_owned(),
        vendor: None,
        model: None,
    }
}

#[test]
fn wear_is_believed_only_with_both_capacities() {
    let sound = battery_check(&BatteryProbe::Present(battery()));
    assert_eq!(sound.status, CheckStatus::Fine);
    assert_eq!(sound.summary, "Заряд 50%, износ 10%");
    assert!(sound.rows.iter().any(|r| r.value.is_none()), "циклов не знаем");

    for lost in 0..2 {
        let mut reading = battery();
        if lost == 0 {
            reading.full = None;
        } else {
            reading.design = None;
        }
        reading.wear = Some(Wear {
            percent: "0%".to_owned(),
            worn: true,
        });
        let check = battery_check(&BatteryProbe::Present(reading));
        assert_eq!(check.status, CheckStatus::Unknown, "износ взят с потолка");
        assert_eq!(check.summary, "Ёмкость батареи не сообщается");
    }

    let mut worn = battery();
    worn.wear = Some(Wear {
        percent: "40%".to_owned(),
        worn: true,
    });
    let check = battery_check(&BatteryProbe::Present(worn));
    assert_eq!(check.status, CheckStatus::Warning);
    assert!(check.advice.is_some());
}

#[test]
fn a_battery_that_cannot_be_asked_is_not_one_that_is_missing() {
    let absent = battery_check(&BatteryProbe::Absent);
    let unknown = battery_check(&BatteryProbe::NoManager("отказ".to_owned()));
    let unlisted = battery_check(&BatteryProbe::NoList("отказ".to_owned()));
    assert_ne!(absent.summary, unknown.summary);
    assert_eq!(absent.status, CheckStatus::Unknown);
    assert_eq!(unknown.status, CheckStatus::Failed);
    assert_eq!(unlisted.status, CheckStatus::Failed);
    assert!(unlisted.summary.ends_with("отказ"), "{}", unlisted.summary);
}

fn volume(available: u64) -> DiskReading {
    DiskReading {
        mount: "/".to_owned(),
        file_system: "ext4".to_owned(),
        total: 1000,
        available,
        kind: DiskKind::Ssd,
        removable: false,
    }
}

#[test]
fn little_space_is_less_than_a_tenth() {
    let checks = disk_checks(&vec![volume(100), volume(99)]);
    assert_eq!(checks.len(), 2);
    assert_eq!(checks[0].status, CheckStatus::Fine);
    assert_eq!(checks[1].status, CheckStatus::Warning);
    assert!(checks[1].advice.is_some());
}

fn device(class: u8, product: Option<&str>) -> UsbReading {
    UsbReading {
        class,
        product: product.map(|p| p.to_owned()),
        vendor_id: 0x046D,
        product_id: 0xC52B,
        speed: UsbSpeed::Full,
        version: 0x0200,
    }
}

#[test]
fn devices_are_listed_without_hubs_and_up_to_a_limit() {
    let check = usb_check(&UsbProbe::Listed(vec![
        device(USB_CLASS_HUB, Some("Хаб")),
        device(3, Some("Мышь")),
        device(3, None),
    ]));
    assert_eq!(check.rows.len(), 2);
    assert_eq!(check.rows[0].label, "Мышь");
    assert!(check.rows[1].label.contains("046d:c52b"), "{}", check.rows[1].label);

    let many: Vec<UsbReading> = (0..USB_LIMIT + 5).map(|_| device(3, Some("Мышь"))).collect();
    let check = usb_check(&UsbProbe::Listed(many));
    assert_eq!(check.rows.len(), USB_LIMIT + 1);
    assert_eq!(check.rows[USB_LIMIT].value.as_deref(), Some("5 устройств"));

    let failed = usb_check(&UsbProbe::NoList("отказ".to_owned()));
    assert_eq!(failed.status, CheckStatus::Failed);
}

#[test]
fn interfaces_are_listed_with_their_addresses() {
    let check = network_check(&vec![
        NetworkReading {
            name: "eth0".to_owned(),
            mac: Some("00:11:22:33:44:55".to_owned()),
        },
        NetworkReading {
            name: "lo".to_owned(),
            mac: None,
        },
    ]);
    assert_eq!(check.rows[0].value.as_deref(), Some("00:11:22:33:44:55"));
    assert_eq!(check.rows[1].value, None);
}

fn adapter() -> AdapterReading {
    AdapterReading {
        name: "Test GPU".to_owned(),
        kind: GpuKind::Integrated,
        vendor_id: 0x8086,
        driver: "i915".to_owned(),
        driver_info: "Mesa 24".to_owned(),
        backend: "vulkan".to_owned(),
    }
}

#[test]
fn the_card_is_described_by_what_it_tells() {
    let info: GpuInfo = read_gpu_info(&adapter()).unwrap();
    assert_eq!(info.driver.as_deref(), Some("i915 Mesa 24"));
    assert_eq!(info.vendor.as_deref(), Some("Intel"));
    assert_eq!(info.kind.label(), "встроенная");
    assert!(gpu_check(&info).summary.contains("Test GPU"));

    let mut nameless = adapter();
    nameless.name = "  ".to_owned();
    assert!(read_gpu_info(&nameless).is_none());

    let mut unknown = adapter();
    unknown.vendor_id = 0x1234;
    unknown.driver = String::new();
    let info = read_gpu_info(&unknown).unwrap();
    assert_eq!(info.vendor, None);
    assert_eq!(info.driver.as_deref(), Some("Mesa 24"));

    let known = [
        (0x1002, "AMD"),
        (0x106B, "Apple"),
        (0x13B5, "ARM"),
        (0x14E4, "Broadcom"),
        (0x1010, "Imagination Technologies"),
        (0x8086, "Intel"),
        (0x10005, "Mesa"),
        (0x10DE, "NVIDIA"),
        (0x5143, "Qualcomm"),
    ];
    for (vendor_id, label) in known {
        let mut card = adapter();
        card.vendor_id = vendor_id;
        assert_eq!(read_gpu_info(&card).unwrap().vendor.as_deref(), Some(label));
    }

    let mut zero = adapter();
    zero.vendor_id = 0;
    zero.driver = String::new();
    zero.driver_info = String::new();
    let info = read_gpu_info(&zero).unwrap();
    assert_eq!(info.vendor, None);
    assert_eq!(info.driver, None);
    assert!(collect(&silent(), &Some(info)).checks.iter().any(|c| c.summary.contains("Test GPU")));
}

#[test]
fn a_finding_has_its_colour() {
    assert_eq!(check_color(CheckStatus::Fine), Tone::Success);
    assert_eq!(check_color(CheckStatus::Warning), Tone::Warning);
    assert_eq!(check_color(CheckStatus::Failed), Tone::Error);
    assert_eq!(check_color(CheckStatus::Unknown), Tone::Muted);
}
