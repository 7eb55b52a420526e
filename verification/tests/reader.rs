use nested_partition_loader::device::{BlockDevice, BlockReader, SeekFrom};
use nested_partition_loader::Error;

fn device(n: usize) -> BlockDevice {
    let bytes: Vec<u8> = (0..n).map(|i| (i % 251) as u8).collect();
    BlockDevice::new(512, bytes).unwrap()
}

#[test]
fn read_agreement_across_alignment() {
    let dev = device(4096);
    let mut r1 = BlockReader::new(&dev, 0, 8).unwrap();
    r1.seek(SeekFrom::Start(512)).unwrap();
    let mut aligned = vec![0u8; 512];
    r1.read_exact(&dev, &mut aligned).unwrap();

    let mut r2 = BlockReader::new(&dev, 0, 8).unwrap();
    r2.seek(SeekFrom::Start(500)).unwrap();
    let mut corrected = vec![0u8; 524];
    r2.read_exact(&dev, &mut corrected).unwrap();

    // The logical range [512, 1024) reads the same either way.
    assert_eq!(&aligned[..], &corrected[12..]);
    for (i, b) in aligned.iter().enumerate() {
        assert_eq!(*b as usize, (512 + i) % 251);
    }
}

#[test]
fn scoped_reader_addresses_its_window() {
    let dev = device(4096);
    let mut r = BlockReader::new(&dev, 2, 6).unwrap();
    let mut buf = vec![0u8; 512];
    r.read_exact(&dev, &mut buf).unwrap();
    // Byte 0 of the window is device byte 1024.
    assert_eq!(buf[0] as usize, 1024 % 251);
}

#[test]
fn seek_rejections() {
    let dev = device(4096);
    let mut r = BlockReader::new(&dev, 0, 8).unwrap();
    assert_eq!(r.seek(SeekFrom::Start(4096)), Err(Error::Io));
    assert_eq!(r.seek(SeekFrom::Start(5000)), Err(Error::Io));
    assert_eq!(r.seek(SeekFrom::Current(-1)), Err(Error::Io));
    assert_eq!(r.seek(SeekFrom::End(1)), Err(Error::Io));
    assert_eq!(r.seek(SeekFrom::End(0)), Ok(4096));
    assert_eq!(r.seek(SeekFrom::Current(-96)), Ok(4000));
    assert_eq!(r.seek(SeekFrom::End(-4096)), Ok(0));
    assert_eq!(r.seek(SeekFrom::Start(4095)), Ok(4095));
}

#[test]
fn multi_boundary_correction_refused() {
    let dev = device(4096);
    let mut r = BlockReader::new(&dev, 0, 8).unwrap();
    // Starts inside a block and ends inside another: two corrections.
    r.seek(SeekFrom::Start(100)).unwrap();
    let mut buf = vec![0u8; 1000];
    assert_eq!(r.read_exact(&dev, &mut buf), Err(Error::Io));
    // An aligned read that ends inside a block is refused too.
    r.seek(SeekFrom::Start(0)).unwrap();
    let mut buf2 = vec![0u8; 100];
    assert_eq!(r.read_exact(&dev, &mut buf2), Err(Error::Io));
    // A read past the window is refused.
    r.seek(SeekFrom::Start(0)).unwrap();
    let mut buf3 = vec![0u8; 8192];
    assert_eq!(r.read_exact(&dev, &mut buf3), Err(Error::Io));
}

#[test]
fn cursor_block_address_and_offset() {
    let dev = device(4096);
    let mut r = BlockReader::new(&dev, 0, 8).unwrap();
    assert_eq!(r.max_pos(), 4096);
    assert_eq!(r.lba(), (0, 0));
    r.seek(SeekFrom::Start(1300)).unwrap();
    assert_eq!(r.lba(), (2, 276));
}

#[test]
fn device_rejects_bad_geometry() {
    assert!(BlockDevice::new(500, vec![0u8; 1000]).is_err());
    assert!(BlockDevice::new(0, vec![]).is_err());
    assert!(BlockDevice::new(512, vec![0u8; 700]).is_err());
    assert!(BlockDevice::new(512, vec![0u8; 1024]).is_ok());
}

#[test]
fn read_serves_remaining_window() {
    let dev = device(4096);
    let mut r = BlockReader::new(&dev, 0, 8).unwrap();
    r.seek(SeekFrom::Start(3584)).unwrap();
    let got = r.read(&dev, 100000).unwrap();
    assert_eq!(got.len(), 512);
    assert_eq!(got[0] as usize, 3584 % 251);
    // At the window end a read serves nothing.
    let eof = r.read(&dev, 16).unwrap();
    assert_eq!(eof.len(), 0);
}

#[test]
fn short_reads_make_progress_at_any_alignment() {
    let dev = device(4096);
    // A single byte from an unaligned cursor.
    let mut r = BlockReader::new(&dev, 0, 8).unwrap();
    r.seek(SeekFrom::Start(100)).unwrap();
    let one = r.read(&dev, 1).unwrap();
    assert_eq!(one.len(), 1);
    assert_eq!(one[0] as usize, 100 % 251);
    // A large request from the unaligned cursor stops at the boundary.
    let rest = r.read(&dev, 10000).unwrap();
    assert_eq!(rest.len(), 411);
    assert_eq!(rest[0] as usize, 101 % 251);
    // A small request from an aligned cursor is served whole.
    let mut r2 = BlockReader::new(&dev, 0, 8).unwrap();
    let small = r2.read(&dev, 100).unwrap();
    assert_eq!(small.len(), 100);
    // A large request from an aligned cursor serves whole blocks.
    let mut r3 = BlockReader::new(&dev, 0, 8).unwrap();
    let big = r3.read(&dev, 1000).unwrap();
    assert_eq!(big.len(), 512);
    // An empty request serves nothing.
    let none = r3.read(&dev, 0).unwrap();
    assert_eq!(none.len(), 0);
}
