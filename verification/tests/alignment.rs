use nested_partition_loader::align::Aligned;

#[test]
fn it_works() {
    assert_eq!(4093u32.aligned(4096), 4096);
    assert_eq!(4097u32.aligned(4096), 8192);
}

#[test]
fn aligned_is_idempotent_and_bounded() {
    for x in [0u32, 1, 4095, 4096, 4097, 123456] {
        let a = x.aligned(4096);
        assert!(a >= x);
        assert!(a < x + 4096);
        assert_eq!(a % 4096, 0);
        assert_eq!(a.aligned(4096), a);
    }
}

#[test]
fn aligned_covers_every_width() {
    assert_eq!(7u8.aligned(8), 8);
    assert_eq!(9u16.aligned(4), 12);
    assert_eq!(5u64.aligned(1), 5);
    assert_eq!(4097usize.aligned(4096), 8192);
    assert_eq!(0u32.aligned(512), 0);
    assert_eq!(512u32.aligned(512), 512);
    assert_eq!(513u32.aligned(512), 1024);
}
