use os::idt::{InterruptIndex, PIC1, PIC2};
use os::pci::class_name::ClassName as RevisedClassName;
use os::pci::subclass::UnclassifiedSubclass;
use os::pci::{get_dev_class_name, ClassName, ConfigAddress, Dev, HeaderType};

#[test]
fn config_address_packs_and_unpacks() {
    let a = ConfigAddress::new(1, 2, 3, 4, true);
    assert_eq!(a.val, (1 << 2) | (2 << 8) | (3 << 11) | (4 << 16) | (1 << 31));
    assert_eq!(a.zero(), 0);
    assert_eq!(a.reg_num(), 1);
    assert_eq!(a.func_num(), 2);
    assert_eq!(a.dev_num(), 3);
    assert_eq!(a.bus_num(), 4);
    assert_eq!(a.reserved(), 0);
    assert!(a.enable());
    let b = ConfigAddress::new(0x3F, 7, 31, 255, false);
    assert_eq!(b.reg_num(), 0x3F);
    assert_eq!(b.func_num(), 7);
    assert_eq!(b.dev_num(), 31);
    assert_eq!(b.bus_num(), 255);
    assert!(!b.enable());
}

#[test]
fn config_address_register_field_holds_six_bits() {
    // a register number above 63 bleeds into the neighbouring bits when
    // packed, and the accessor reads back only the six-bit field
    let a = ConfigAddress::new(0xFF, 0, 0, 0, false);
    assert_eq!(a.val, 0xFF << 2);
    assert_eq!(a.reg_num(), 0x3F);
}

#[test]
fn device_header_decodes_the_union_layout() {
    let d = Dev::from_words(0x5678_1234, 0xAAAA_BBBB, 0x0102_0304, 0x1122_3344);
    let o = d.options();
    assert_eq!(o.vendor_id, 0x1234);
    assert_eq!(o.device_id, 0x5678);
    assert_eq!(o.command_reg, 0xBBBB);
    assert_eq!(o.status_reg, 0xAAAA);
    assert_eq!(o.revision_id, 0x04);
    assert_eq!(o.prog_if, 0x03);
    assert_eq!(o.sub_class_code, 0x02);
    assert_eq!(o.class_code, 0x01);
    assert_eq!(o.cache_line_size, 0x44);
    assert_eq!(o.latency, 0x33);
    assert_eq!(o.header_type, 0x22);
    assert_eq!(o.bist, 0x11);
    assert_eq!(d.vendor_id(), 0x1234);
    assert_eq!(d.device_id(), 0x5678);
    assert_eq!(d.class_code(), 0x01);
}

#[test]
fn absent_and_multifunction_devices_are_recognized() {
    assert!(Dev::new().is_absent());
    assert!(Dev::from_words(0xFFFF_FFFF, 0, 0, 0).is_absent());
    assert!(Dev::from_words(0xFFFF_1234, 0, 0, 0).is_absent());
    assert!(!Dev::from_words(0x5678_1234, 0, 0, 0).is_absent());
    assert!(Dev::from_words(0x5678_1234, 0, 0, 0x0080_0000).is_multifunction());
    assert!(!Dev::from_words(0x5678_1234, 0, 0, 0x0001_0000).is_multifunction());
}

#[test]
fn header_type_codes() {
    assert_eq!(HeaderType::Normal.code(), 0);
    assert_eq!(HeaderType::Bridge.code(), 1);
    assert_eq!(HeaderType::CardBus.code(), 2);
    assert_eq!(HeaderType::MultiFunc.code(), 0x80);
}

#[test]
fn class_codes_map_to_names() {
    assert_eq!(ClassName::new(0), Some(ClassName::BeforePCI20));
    assert_eq!(ClassName::new(1), Some(ClassName::DiskController));
    assert_eq!(ClassName::new(17), Some(ClassName::SignalProcessingController));
    assert_eq!(ClassName::new(18), None);
    assert_eq!(ClassName::new(0x80), None);
    assert_eq!(ClassName::new(0xFF), Some(ClassName::ProprietaryDevice));
    assert_eq!(ClassName::DiskController.to_string(), "Disk controller");
    assert_eq!(ClassName::CPU.to_string(), "CPU");
    assert_eq!(ClassName::BeforePCI20.to_string(), "Before PCI 2.0");
}

#[test]
fn class_name_lookup_goes_through_the_table() {
    assert_eq!(get_dev_class_name(3), Some("Graphics adapter"));
    assert_eq!(get_dev_class_name(0xFF), Some("Proprietary device"));
    assert_eq!(get_dev_class_name(42), None);
}

#[test]
fn revised_class_table_names_class_zero_unclassified() {
    assert_eq!(RevisedClassName::new(0), Some(RevisedClassName::Unclassified));
    assert_eq!(RevisedClassName::new(0).unwrap().to_string(), "Unclassified");
    assert_eq!(RevisedClassName::new(12), Some(RevisedClassName::SerialBus));
    assert_eq!(RevisedClassName::new(30), None);
}

#[test]
fn unclassified_subclasses() {
    assert_eq!(UnclassifiedSubclass::new(0), Some(UnclassifiedSubclass::NonVGA));
    assert_eq!(UnclassifiedSubclass::new(1), Some(UnclassifiedSubclass::VGA));
    assert_eq!(UnclassifiedSubclass::new(2), None);
    assert_eq!(UnclassifiedSubclass::new(0).unwrap().to_string(), "Non-VGA-Compatible");
    assert_eq!(UnclassifiedSubclass::new(1).unwrap().to_string(), "VGA-Compatible");
}

#[test]
fn interrupt_vectors_sit_on_the_remapped_base() {
    assert_eq!(PIC1, 0x20);
    assert_eq!(PIC2, 0x28);
    assert_eq!(InterruptIndex::Timer.as_u8(), 0x20);
    assert_eq!(InterruptIndex::Keyboard.as_u8(), 0x21);
}
