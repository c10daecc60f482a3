use logos::boot_resources::{
    select_mode, FramebufferInfo, ModeCandidate, MemoryDescriptor, MemoryMap, PixelFormat, ResourceError, MAX_MEMORY_DESCRIPTORS,
};

#[test]
fn framebuffer_validation_is_bounded() {
    let valid = FramebufferInfo::new(0x1000, 640 * 400 * 4, 640, 400, 640, PixelFormat::Bgr8);
    assert!(valid.is_some());
    assert!(
        FramebufferInfo::new(0x1001, 640 * 400 * 4, 640, 400, 640, PixelFormat::Bgr8).is_none()
    );
    assert!(FramebufferInfo::new(0x1000, 1, 640, 400, 640, PixelFormat::Bgr8).is_none());
}

#[test]
fn memory_map_capacity_and_available_pages_are_explicit() {
    let mut map = MemoryMap::new();
    map.push(MemoryDescriptor::new(0x1000, 4, true).unwrap()).unwrap();
    map.push(MemoryDescriptor::new(0x5000, 2, false).unwrap()).unwrap();
    assert_eq!(map.len(), 2);
    assert_eq!(map.available_pages(), 4);
    assert!(!map.get(1).unwrap().available);
}

#[test]
fn invalid_memory_ranges_are_rejected() {
    assert!(MemoryDescriptor::new(1, 1, true).is_none());
    assert!(MemoryDescriptor::new(0x1000, 0, true).is_none());
    assert!(MemoryDescriptor::new(u64::MAX - 0xfff, 2, true).unwrap().end().is_none());
}

#[test]
fn framebuffer_getters_and_stride_rules() {
    let info = FramebufferInfo::new(0x2000, 800 * 600 * 4, 800, 600, 800, PixelFormat::Rgb8).unwrap();
    assert_eq!(info.base(), 0x2000);
    assert_eq!(info.bytes(), 800 * 600 * 4);
    assert_eq!((info.width(), info.height(), info.stride()), (800, 600, 800));
    assert_eq!(info.format(), PixelFormat::Rgb8);
    assert!(FramebufferInfo::new(0x2000, 800 * 600 * 4, 800, 600, 799, PixelFormat::Rgb8).is_none());
    assert!(FramebufferInfo::new(0, 4096, 1, 1, 1, PixelFormat::Rgb8).is_none());
}

#[test]
fn memory_map_rejects_overflowing_descriptors_and_fills_up() {
    let mut map = MemoryMap::new();
    let overflowing = MemoryDescriptor::new(u64::MAX - 0xfff, 2, true).unwrap();
    assert_eq!(map.push(overflowing), Err(ResourceError::InvalidMemoryDescriptor));
    assert!(map.is_empty());
    for index in 0..MAX_MEMORY_DESCRIPTORS {
        let d = MemoryDescriptor::new((index as u64) * 0x1000, 1, index % 2 == 0).unwrap();
        assert_eq!(map.push(d), Ok(()));
    }
    let extra = MemoryDescriptor::new(0, 1, true).unwrap();
    assert_eq!(map.push(extra), Err(ResourceError::Capacity));
    assert_eq!(map.available_pages(), (MAX_MEMORY_DESCRIPTORS / 2) as u64);
    assert_eq!(MemoryDescriptor::new(0x3000, 3, true).unwrap().end(), Some(0x6000));
}

#[test]
fn smallest_usable_display_mode_is_selected() {
    let mode = |width, height, format| ModeCandidate { width, height, stride: width, format };
    let modes = [
        mode(320, 200, Some(PixelFormat::Bgr8)),
        mode(1024, 768, Some(PixelFormat::Rgb8)),
        mode(800, 600, None),
        mode(800, 600, Some(PixelFormat::Bgr8)),
        mode(8192, 8192, Some(PixelFormat::Bgr8)),
        mode(640, 480, Some(PixelFormat::Bgr8)),
        mode(640, 480, Some(PixelFormat::Rgb8)),
    ];
    assert_eq!(select_mode(&modes), Some(5));
    assert_eq!(select_mode(&modes[..2]), Some(1));
    assert_eq!(select_mode(&modes[..1]), None);
    assert_eq!(select_mode(&[]), None);
}
