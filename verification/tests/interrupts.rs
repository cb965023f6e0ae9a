use kernel::interrupts::{
    AccessByte, Dpl, Flags, GateDescriptor, GateType, Gdtr, Idtr, SegmentDescriptor,
};

#[test]
fn test_set_flags() {
    let mut f = Flags(0);
    f.set_g(true);
    assert_eq!(f.0, 0x80);
    f.set_db(true);
    assert_eq!(f.0, 0xC0);
    f.set_l(true);
    assert_eq!(f.0, 0xE0);
}

#[test]
fn test_set_access_byte() {
    let mut ab = AccessByte(0);
    ab.set_p(true);
    assert_eq!(ab.0, 0x80);
    ab.set_dpl(Dpl::Ring3);
    assert_eq!(ab.0, 0xE0);
    ab.set_s(true);
    assert_eq!(ab.0, 0xF0);
}

#[test]
fn test_segment_descriptor_fields() {
    let sd = SegmentDescriptor(0x00F0000000000000);
    let f = sd.flags();
    assert_eq!(f.0, 0x0F);

    let sd = SegmentDescriptor(0x0000FF0000000000);
    let ab = sd.access_byte();
    assert_eq!(ab.0, 0xFF);
}

#[test]
fn test_init_gdt() {
    assert_eq!(SegmentDescriptor::kernel_mode_code_segment().0, 0x00A09A0000000000);
    assert_eq!(SegmentDescriptor::kernel_mode_data_segment().0, 0x00C0920000000000);
}

#[test]
fn test_gate_descriptor() {
    // Test offset
    let mut gd = GateDescriptor(0, 0);
    gd.set_offset(0x0123456789ABCDEF);
    assert_eq!(gd.offset(), 0x0123456789ABCDEF);

    let mut gd = GateDescriptor(0xFFFF00000000FFFF, 0xFFFFFFFF);
    assert_eq!(gd.offset(), 0xFFFFFFFFFFFFFFFF);

    // Test p
    gd.set_p(true);
    assert_eq!(gd.p(), true);

    // Test DPL
    gd.set_dpl(Dpl::Ring3);
    assert_eq!(gd.dpl(), Dpl::Ring3);

    // Test GateType
    gd.set_gate_type(GateType::Trap);
    assert_eq!(gd.gate_type(), GateType::Trap);

    // Test IST
    gd.set_ist(0x07);
    assert_eq!(gd.ist(), 0x07);

    // Test Segment Selector
    gd.set_selector(0xFFFF);
    assert_eq!(gd.selector(), 0xFFFF);
}

#[test]
fn flags_read_the_high_bits() {
    let f = Flags(0xA0);
    assert!(f.g());
    assert!(!f.db());
    assert!(f.l());
    let mut f = Flags(0xE0);
    f.set_db(false);
    assert_eq!(f.0, 0xA0);
}

#[test]
fn access_byte_of_the_kernel_code_segment() {
    let ab = SegmentDescriptor::kernel_mode_code_segment().access_byte();
    assert_eq!(ab.0, 0x9A);
    assert!(ab.p());
    assert_eq!(ab.dpl(), Dpl::Ring0);
    assert!(ab.s());
    assert!(ab.e());
    assert!(!ab.dc());
    assert!(ab.rw());
    assert!(!ab.a());
}

#[test]
fn access_byte_setters_keep_the_other_fields() {
    let mut ab = AccessByte(0xFF);
    ab.set_dpl(Dpl::Ring1);
    assert_eq!(ab.0, 0xBF);
    assert_eq!(ab.dpl(), Dpl::Ring1);
    ab.set_e(false);
    assert_eq!(ab.0, 0xB7);
    ab.set_rw(false);
    assert_eq!(ab.0, 0xB5);
    ab.set_p(false);
    assert_eq!(ab.0, 0x35);
    ab.set_s(false);
    assert_eq!(ab.0, 0x25);
}

#[test]
fn segment_descriptor_base_and_limit() {
    let sd = SegmentDescriptor(0x12CF_9A34_5678_FFFF);
    assert_eq!(sd.base(), 0x1234_5678);
    assert_eq!(sd.limit(), 0xF_FFFF);
    assert_eq!(sd.flags().0, 0x0C);
    assert_eq!(sd.access_byte().0, 0x9A);
    let sd = SegmentDescriptor::kernel_mode_data_segment();
    assert_eq!(sd.base(), 0);
    assert_eq!(sd.limit(), 0);
    assert_eq!(sd.flags().0, 0x0C);
}

#[test]
fn rings_and_their_numbers() {
    assert_eq!(Dpl::try_from(0), Ok(Dpl::Ring0));
    assert_eq!(Dpl::try_from(1), Ok(Dpl::Ring1));
    assert_eq!(Dpl::try_from(2), Ok(Dpl::Ring2));
    assert_eq!(Dpl::try_from(3), Ok(Dpl::Ring3));
    assert!(Dpl::try_from(4).is_err());
    assert!(Dpl::try_from(255).is_err());
    assert_eq!(Dpl::Ring2.to_u8(), 2);
}

#[test]
fn gate_types_and_their_codes() {
    assert_eq!(GateType::try_from(0x0E), Ok(GateType::Interrupt));
    assert_eq!(GateType::try_from(0x0F), Ok(GateType::Trap));
    assert_eq!(GateType::try_from(0), Err("Invalid value for a GateType."));
    assert!(GateType::try_from(0x10).is_err());
    assert_eq!(GateType::Interrupt.to_u8(), 0x0E);
    assert_eq!(GateType::Trap.to_u8(), 0x0F);
}

#[test]
fn new_gate_descriptor_holds_what_it_was_given() {
    let gd = GateDescriptor::new(0x0123_4567_89AB_CDEF, 0x08, Dpl::Ring0, GateType::Interrupt);
    assert_eq!(gd.0, 0x89AB_8E00_0008_CDEF);
    assert_eq!(gd.1, 0x0123_4567);
    assert_eq!(gd.offset(), 0x0123_4567_89AB_CDEF);
    assert_eq!(gd.selector(), 0x08);
    assert_eq!(gd.dpl(), Dpl::Ring0);
    assert_eq!(gd.gate_type(), GateType::Interrupt);
    assert_eq!(gd.ist(), 0);
    assert!(gd.p());

    let gd = GateDescriptor::new(0xFFFF_8000_0010_2030, 0x10, Dpl::Ring3, GateType::Trap);
    assert_eq!(gd.0, 0x0010_EF00_0010_2030);
    assert_eq!(gd.1, 0xFFFF_8000);
}

#[test]
fn gate_descriptor_setters_keep_the_other_fields() {
    let mut gd = GateDescriptor::new(0xFFFF_FFFF_FFFF_FFFF, 0xFFFF, Dpl::Ring3, GateType::Trap);
    gd.set_ist(5);
    gd.set_selector(0x1234);
    assert_eq!(gd.offset(), 0xFFFF_FFFF_FFFF_FFFF);
    assert_eq!(gd.ist(), 5);
    gd.set_offset(0);
    assert_eq!(gd.selector(), 0x1234);
    assert_eq!(gd.dpl(), Dpl::Ring3);
    assert_eq!(gd.gate_type(), GateType::Trap);
    assert_eq!(gd.ist(), 5);
    assert!(gd.p());
    gd.set_p(false);
    gd.set_dpl(Dpl::Ring1);
    gd.set_gate_type(GateType::Interrupt);
    assert_eq!(gd.0, 0x0000_2E05_1234_0000);
    assert_eq!(gd.1, 0);
}

#[test]
fn table_registers_count_their_entries() {
    assert_eq!(Gdtr { limit: 3 * 8 - 1, base: 0x1000 }.entries(), 3);
    assert_eq!(Gdtr { limit: 0, base: 0 }.entries(), 0);
    assert_eq!(Idtr { limit: 256 * 16 - 1, base: 0x2000 }.entries(), 256);
    assert_eq!(Idtr { limit: 30, base: 0 }.entries(), 1);
}

#[test]
fn default_gate_descriptor_is_all_zeros() {
    let gd = GateDescriptor::default();
    assert_eq!((gd.0, gd.1), (0, 0));
    assert!(!gd.p());
    assert_eq!(gd.offset(), 0);
    assert_eq!(gd.selector(), 0);
    assert_eq!(gd.dpl(), Dpl::Ring0);
    assert_eq!(gd.ist(), 0);
}
