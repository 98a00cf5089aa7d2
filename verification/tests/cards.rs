use rtop::gpu::{
    card_fields, card_memory, card_of_fields, first_frequency_pair, first_known_share, intel_share,
    is_drm_card_dir, local_memory, named_card, read_amd_card_stats, read_intel_card_stats, Maker,
    MemoryRegion,
};
use rtop::pci::{
    collapse_whitespace, extract_bracketed_name, parse_description, parse_uevent_field,
    read_pci_hex_id, read_pci_name_from_ids_file, read_pci_name_with_lspci, with_prefix, NameSearch,
};
use rtop::reading::Reading;

fn r(value: f32) -> Reading {
    Reading { bits: value.to_bits() }
}

fn region(directory: &str, label: &str, total: Option<u64>, used: Option<u64>) -> MemoryRegion {
    MemoryRegion {
        directory: directory.to_string(),
        label: Some(label.to_string()),
        total,
        size: None,
        used,
    }
}

const REGISTER: &str = "# register\n\n1002  AMD\n\t73bf  Navi 21\n\t\t73bf  Board\n\t9999\n8086  Intel\n\
                        \t9A49  TigerLake  Xe \nC 00  Class\n\t73bf  Not a device\n";

#[test]
fn fields_of_a_card() {
    let f = card_fields(" RTX 3080 , 12, 45, 1000, 10240 , x\nsecond\n").unwrap();
    assert_eq!(f.name, "RTX 3080");
    assert_eq!((f.usage, f.temperature), ("12".to_string(), "45".to_string()));
    assert_eq!((f.used, f.total), ("1000".to_string(), "10240".to_string()));
    assert!(card_fields("a,b,c,d").is_none());
    assert!(card_fields("").is_none());
    let card = card_of_fields("x".to_string(), Some(r(1.0)), Some(r(2.0)), Some(r(3.0)), Some(r(4.0)));
    assert_eq!(card.map(|c| c.vram_total_mib), Some(r(4.0)));
    assert!(card_of_fields("x".to_string(), None, Some(r(2.0)), Some(r(3.0)), Some(r(4.0))).is_none());
}

#[test]
fn directories_of_cards() {
    assert!(is_drm_card_dir("card0"));
    assert!(is_drm_card_dir("card12"));
    assert!(!is_drm_card_dir("card"));
    assert!(!is_drm_card_dir("card0-HDMI-A-1"));
    assert!(!is_drm_card_dir("render128"));
    assert!(Maker::Amd.is_vendor("0x1002\n"));
    assert!(!Maker::Amd.is_vendor("0x8086"));
    assert!(Maker::Intel.is_vendor(" 0x8086 "));
}

#[test]
fn figures_of_cards() {
    let amd = read_amd_card_stats(Some(r(120.0)), Some(r(60.0)), Some(r(900.0)), Some(r(800.0))).unwrap();
    assert_eq!(amd.usage_pct, r(100.0));
    assert_eq!(amd.temp_c, r(60.0));
    assert_eq!(amd.vram_used_mib, r(800.0));
    assert!(read_amd_card_stats(None, None, Some(r(5.0)), None).is_none());
    assert!(read_amd_card_stats(Some(r(0.0)), Some(r(-1.0)), None, Some(r(0.0))).is_none());
    assert!(read_amd_card_stats(None, Some(r(1.0)), None, None).is_some());
    let intel = read_intel_card_stats(None, None, Some(r(5.0)), None);
    assert_eq!(intel.vram_used_mib, r(5.0));
    assert_eq!(intel.usage_pct, r(0.0));
    assert_eq!(named_card(amd, "card".to_string()).name, "card");
}

#[test]
fn shares_of_cards() {
    assert_eq!(first_known_share(&vec![None, Some(r(150.0)), Some(r(1.0))]), Some(r(100.0)));
    assert_eq!(first_known_share(&vec![None]), None);
    assert_eq!(intel_share(&vec![None, Some(r(7.0))], Some(r(50.0))), Some(r(7.0)));
    assert_eq!(intel_share(&vec![None], Some(r(250.0))), Some(r(100.0)));
    assert_eq!(intel_share(&vec![], Some(r(-1.0))), Some(r(0.0)));
    assert_eq!(intel_share(&vec![None], None), None);
    let pairs = vec![
        (Some(r(1.0)), None),
        (Some(r(1.0)), Some(r(0.0))),
        (Some(r(300.0)), Some(r(600.0))),
        (Some(r(1.0)), Some(r(2.0))),
    ];
    assert_eq!(first_frequency_pair(&pairs), Some((r(300.0), r(600.0))));
    assert_eq!(first_frequency_pair(&vec![]), None);
}

#[test]
fn regions_of_memory() {
    let regions = vec![
        region("memory_region0", "system", Some(1000), Some(1)),
        region("memory_region1", " Local0\n", Some(100), Some(150)),
        region("memory_region2", "lmem1", Some(50), None),
        region("other", "local", Some(7), None),
        region("memory_region3", "local", None, Some(9)),
    ];
    assert_eq!(local_memory(&regions), Some((100, 150)));
    assert_eq!(local_memory(&vec![]), None);
    let huge = vec![
        region("memory_region0", "local", Some(u64::MAX), Some(u64::MAX)),
        region("memory_region1", "local", Some(u64::MAX), Some(1)),
    ];
    assert_eq!(local_memory(&huge), Some((u64::MAX, u64::MAX)));
    assert_eq!(card_memory(Some(1), Some(2), &regions), Some((1, 2)));
    assert_eq!(card_memory(None, Some(2), &regions), Some((100, 150)));
    let sized = MemoryRegion {
        directory: "memory_region".to_string(),
        label: Some("LMEM".to_string()),
        total: None,
        size: Some(8),
        used: Some(3),
    };
    assert_eq!(local_memory(&vec![sized]), Some((3, 8)));
}

#[test]
fn white_space_collapses() {
    assert_eq!(collapse_whitespace("  a \t b\n"), "a b");
    assert_eq!(collapse_whitespace(""), "");
    assert_eq!(collapse_whitespace(&collapse_whitespace(" x  y ")), "x y");
}

#[test]
fn makers_before_names() {
    assert_eq!(with_prefix(Maker::Amd, "Radeon  RX"), "AMD Radeon RX");
    assert_eq!(with_prefix(Maker::Amd, "amd Radeon"), "amd Radeon");
    assert_eq!(with_prefix(Maker::Amd, "Advanced Micro Devices X"), "Advanced Micro Devices X");
    assert_eq!(with_prefix(Maker::Intel, "UHD"), "Intel UHD");
    assert_eq!(with_prefix(Maker::Intel, "Intel Corporation UHD"), "Intel Corporation UHD");
    let once = with_prefix(Maker::Amd, " RX 580 ");
    assert_eq!(with_prefix(Maker::Amd, &once), once);
    assert_eq!(with_prefix(Maker::Amd, &with_prefix(Maker::Amd, "")), "AMD AMD");
}

#[test]
fn names_in_brackets() {
    assert_eq!(
        extract_bracketed_name("AMD [AMD/ATI] Navi [Radeon RX 6800 ] x", "Radeon"),
        Some("Radeon RX 6800".to_string())
    );
    assert_eq!(extract_bracketed_name("[Radeon", "Radeon"), None);
    assert_eq!(extract_bracketed_name("none", "Radeon"), None);
}

#[test]
fn fields_of_events() {
    let text = "DRIVER=amdgpu\nPCI_SLOT_NAME=\nPCI_SLOT_NAME= 0000:03:00.0 \nPCI_SLOT_NAME=x\n";
    assert_eq!(parse_uevent_field(text, "PCI_SLOT_NAME"), Some("0000:03:00.0".to_string()));
    assert_eq!(parse_uevent_field(text, "SLOT"), None);
}

#[test]
fn descriptions_of_devices() {
    let text = "03:00.0 VGA compatible controller: AMD Navi 21 [Radeon RX 6800] (rev c3)\n";
    assert_eq!(parse_description(text), Some("AMD Navi 21 [Radeon RX 6800]".to_string()));
    assert_eq!(parse_description("no colon"), None);
    assert_eq!(parse_description("a:  (rev 1)"), None);
    assert_eq!(parse_description(""), None);
    assert_eq!(read_pci_name_with_lspci(Maker::Amd, text), Some("AMD Radeon RX 6800".to_string()));
    assert_eq!(
        read_pci_name_with_lspci(Maker::Intel, "0: Intel Corporation Xe (rev 1)"),
        Some("Intel Corporation Xe".to_string())
    );
    assert_eq!(read_pci_name_with_lspci(Maker::Amd, "0: Navi"), Some("AMD Navi".to_string()));
}

#[test]
fn numbers_of_devices() {
    assert_eq!(read_pci_hex_id("0x73BF\n"), Some("73bf".to_string()));
    assert_eq!(read_pci_hex_id("8086"), Some("8086".to_string()));
    assert_eq!(read_pci_hex_id("0x"), None);
    assert_eq!(read_pci_hex_id(" "), None);
}

#[test]
fn the_register() {
    assert_eq!(read_pci_name_from_ids_file(REGISTER, "1002", "73bf"), Some("Navi 21".to_string()));
    assert_eq!(read_pci_name_from_ids_file(REGISTER, "8086", "9a49"), Some("TigerLake  Xe".to_string()));
    assert_eq!(read_pci_name_from_ids_file(REGISTER, "8086", "73bf"), None);
    assert_eq!(read_pci_name_from_ids_file(REGISTER, "1002", "9999"), None);
    assert_eq!(read_pci_name_from_ids_file("", "1002", "73bf"), None);
    let spaced = "1002 AMD\n\t 1234 Name\n";
    assert_eq!(read_pci_name_from_ids_file(spaced, "1002", "1234"), Some("4 Name".to_string()));
    let broken = "1002 AMD\n\t\u{3000}12 Name\n\t12 Good\n";
    assert_eq!(read_pci_name_from_ids_file(broken, "1002", "12"), None);
}

fn search(maker: Maker, answers: &[(&str, Option<&str>)], label: Option<&str>) -> (String, Vec<String>) {
    let mut asked = Vec::new();
    let mut state = NameSearch::Product;
    loop {
        let what = match &state {
            NameSearch::Product => "product",
            NameSearch::Uevent => "uevent",
            NameSearch::Listing { slot } => {
                assert_eq!(slot, "0000:03:00.0");
                "listing"
            }
            NameSearch::Vendor { .. } => "vendor",
            NameSearch::Device { .. } => "device",
            NameSearch::FirstRegister { .. } => "first",
            NameSearch::SecondRegister { .. } => "second",
            NameSearch::Found { name } => return (name.clone(), asked),
        };
        asked.push(what.to_string());
        let reply = answers.iter().find(|(w, _)| *w == what).and_then(|(_, text)| *text);
        state = state.next(maker, reply, label, "card0");
    }
}

#[test]
fn the_search_for_a_name() {
    let (name, asked) = search(Maker::Amd, &[("product", Some(" RX 580\n"))], None);
    assert_eq!((name.as_str(), asked.len()), ("AMD RX 580", 1));

    let uevent = ("uevent", Some("PCI_SLOT_NAME=0000:03:00.0"));
    let listing = ("listing", Some("03:00.0 VGA: Navi 21"));
    let (name, asked) = search(Maker::Amd, &[("product", Some(" ")), uevent, listing], None);
    assert_eq!(name, "AMD Navi 21");
    assert_eq!(asked, vec!["product", "uevent", "listing"]);

    let ids = [("vendor", Some("0x1002")), ("device", Some("0x73bf"))];
    let (name, _) = search(Maker::Amd, &[ids[0], ids[1], ("first", Some(REGISTER))], None);
    assert_eq!(name, "AMD Navi 21");
    let (name, asked) = search(Maker::Amd, &[ids[0], ids[1], ("second", Some(REGISTER))], None);
    assert_eq!(name, "AMD Navi 21");
    assert_eq!(asked.len(), 6);

    let (name, _) = search(Maker::Amd, &[uevent, ids[0], ids[1]], Some("label"));
    assert_eq!(name, "AMD 0000:03:00.0");
    let (name, _) = search(Maker::Intel, &[], Some("label"));
    assert_eq!(name, "Intel label");
    let (name, _) = search(Maker::Intel, &[ids[0]], None);
    assert_eq!(name, "Intel card0");
}
