use shm_buffer_pool::geometry::{buffer_size, checked_buffer_size, BYTES_PER_PIXEL, MAX_POOL_SIZE};

#[test]
fn buffer_size_is_four_bytes_per_pixel() {
    assert_eq!(BYTES_PER_PIXEL, 4);
    assert_eq!(buffer_size(4, 4), 64);
    assert_eq!(buffer_size(500, 500), 1_000_000);
    assert_eq!(buffer_size(1, 1), 4);
    assert_eq!(buffer_size(1920, 1080), 8_294_400);
    assert_eq!(buffer_size(3, 5), 60);
}

#[test]
fn buffer_size_of_no_pixels_is_zero() {
    assert_eq!(buffer_size(0, 0), 0);
    assert_eq!(buffer_size(0, 17), 0);
    assert_eq!(buffer_size(17, 0), 0);
}

#[test]
fn checked_buffer_size_stops_at_the_protocol_limit() {
    assert_eq!(MAX_POOL_SIZE, 2_147_483_647);
    assert_eq!(checked_buffer_size(4, 4), Some(64));
    assert_eq!(checked_buffer_size(0, 9), Some(0));
    assert_eq!(checked_buffer_size(16384, 16384), Some(1_073_741_824));
    assert_eq!(checked_buffer_size(536_870_911, 1), Some(2_147_483_644));
    assert_eq!(checked_buffer_size(1, 536_870_912), None);
    assert_eq!(checked_buffer_size(23171, 23171), None);
    assert_eq!(checked_buffer_size(23170, 23170), Some(2_147_395_600));
    assert_eq!(checked_buffer_size(u32::MAX, u32::MAX), None);
}
