use ash::vk::QueueFlags;
use shm_buffer_pool::queue::{
    first_usable_family, select_queue_family, QueueChoice, QueueFamily, GRAPHICS, TRANSFER,
};

fn family(flags: u32, presentation: bool) -> QueueFamily {
    QueueFamily { flags, presentation }
}

#[test]
fn usable_family_has_graphics_transfer_and_presentation() {
    assert_eq!(GRAPHICS, 1);
    assert_eq!(TRANSFER, 4);
    assert!(family(0b101, true).is_usable());
    assert!(family(0b1111, true).is_usable());
    assert!(family(u32::MAX, true).is_usable());
    assert!(!family(0b101, false).is_usable());
    assert!(!family(0b001, true).is_usable());
    assert!(!family(0b100, true).is_usable());
    assert!(!family(0b110, true).is_usable());
    assert!(!family(0b1010, true).is_usable());
    assert!(!family(0, true).is_usable());
}

#[test]
fn first_usable_family_of_a_device() {
    assert_eq!(first_usable_family(&vec![]), None);
    assert_eq!(first_usable_family(&vec![family(0b100, true), family(0b111, false)]), None);
    assert_eq!(
        first_usable_family(&vec![family(0b010, true), family(0b111, true), family(0b101, true)]),
        Some(1)
    );
    assert_eq!(first_usable_family(&vec![family(0b101, true)]), Some(0));
}

#[test]
fn first_device_with_a_usable_family_is_chosen() {
    let devices = vec![
        vec![family(0b100, true), family(0b010, true)],
        vec![],
        vec![family(0b111, false), family(0b100, true), family(0b1111, true)],
        vec![family(0b101, true)],
    ];
    assert_eq!(select_queue_family(&devices), Some(QueueChoice { device: 2, family: 2 }));
}

#[test]
fn no_usable_family_means_no_choice() {
    assert_eq!(select_queue_family(&vec![]), None);
    assert_eq!(select_queue_family(&vec![vec![], vec![]]), None);
    let devices = vec![vec![family(0b101, false)], vec![family(0b011, true), family(0b110, true)]];
    assert_eq!(select_queue_family(&devices), None);
}

#[test]
fn capability_bits_are_those_of_the_driver_interface() {
    assert_eq!(GRAPHICS, QueueFlags::GRAPHICS.as_raw());
    assert_eq!(TRANSFER, QueueFlags::TRANSFER.as_raw());
    for flags in 0..64u32 {
        let expected = QueueFlags::from_raw(flags)
            .contains(QueueFlags::GRAPHICS | QueueFlags::TRANSFER);
        assert_eq!(family(flags, true).is_usable(), expected);
        assert!(!family(flags, false).is_usable());
    }
}
