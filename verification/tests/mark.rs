use ternitor::mark::{dib, ico, push_u16, push_u32, ICO_SIZES};

fn blank_rasters() -> Vec<Vec<u8>> {
    ICO_SIZES.iter().map(|&s| vec![0u8; (s * s * 4) as usize]).collect()
}

/// Every size in the `.ico` has to be a real image, not a header.
#[test]
fn the_ico_holds_every_size_it_claims() {
    let ico = ico(&blank_rasters());
    let count = u16::from_le_bytes([ico[4], ico[5]]) as usize;
    assert_eq!(count, ICO_SIZES.len());
    for (i, &size) in ICO_SIZES.iter().enumerate() {
        let entry = 6 + i * 16;
        let w = if ico[entry] == 0 { 256 } else { ico[entry] as i32 };
        assert_eq!(w, size, "entry {i} is the wrong size");
        let len = u32::from_le_bytes(ico[entry + 8..entry + 12].try_into().unwrap()) as usize;
        // BITMAPINFOHEADER + the XOR image + a 1bpp AND mask on 4-byte rows.
        let expect = 40
            + size as usize * size as usize * 4
            + (size as usize).div_ceil(32) * 4 * size as usize;
        assert_eq!(len, expect, "entry {i} is {len} bytes, not {expect}");
    }
}

#[test]
fn the_directory_points_at_each_image() {
    let ico = ico(&blank_rasters());
    assert_eq!(&ico[0..4], &[0, 0, 1, 0]);
    let mut offset = 6 + 16 * ICO_SIZES.len();
    for i in 0..ICO_SIZES.len() {
        let entry = 6 + i * 16;
        assert_eq!(&ico[entry + 2..entry + 8], &[0, 0, 1, 0, 32, 0]);
        let len = u32::from_le_bytes(ico[entry + 8..entry + 12].try_into().unwrap()) as usize;
        let at = u32::from_le_bytes(ico[entry + 12..entry + 16].try_into().unwrap()) as usize;
        assert_eq!(at, offset);
        // Each image starts with its own header.
        assert_eq!(&ico[at..at + 4], &[40, 0, 0, 0]);
        offset += len;
    }
    assert_eq!(offset, ico.len());
}

#[test]
fn a_dib_is_bottom_up_with_a_zero_mask() {
    // A 2x2 raster whose pixels carry their own index.
    let px: Vec<u8> = (0u8..16).collect();
    let d = dib(2, &px);
    assert_eq!(d.len(), 40 + 16 + 4 * 2);
    assert_eq!(&d[0..12], &[40, 0, 0, 0, 2, 0, 0, 0, 4, 0, 0, 0]);
    assert_eq!(&d[12..16], &[1, 0, 32, 0]);
    assert_eq!(&d[20..24], &[16, 0, 0, 0]);
    assert!(d[16..20].iter().all(|&b| b == 0));
    assert!(d[24..40].iter().all(|&b| b == 0));
    // The bottom row comes first.
    assert_eq!(&d[40..48], &[8, 9, 10, 11, 12, 13, 14, 15]);
    assert_eq!(&d[48..56], &[0, 1, 2, 3, 4, 5, 6, 7]);
    assert!(d[56..].iter().all(|&b| b == 0));
}

#[test]
fn integers_are_written_little_endian() {
    let mut out = vec![9u8];
    push_u16(&mut out, 0x1234);
    push_u32(&mut out, 0xA1B2C3D4);
    assert_eq!(out, vec![9, 0x34, 0x12, 0xD4, 0xC3, 0xB2, 0xA1]);
}
