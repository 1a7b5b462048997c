use drend::obj::Texture;
use drend::pixels::{batch_by_texture, bgra_to_rgba, choose_format, is_bgra, upload_rows, FormatKind};

#[test]
fn aligned_rows_upload_as_is() {
    let t = Texture { w: 64, h: 2, data: (0..512u32).map(|i| i as u8).collect() };
    let (bytes, pitch) = upload_rows(&t);
    assert_eq!(pitch, 256);
    assert_eq!(bytes, t.data);
}

#[test]
fn short_rows_are_padded_with_zeros() {
    let t = Texture { w: 2, h: 2, data: vec![1, 2, 3, 4, 5, 6, 7, 8, 9, 10, 11, 12, 13, 14, 15, 16] };
    let (bytes, pitch) = upload_rows(&t);
    assert_eq!(pitch, 256);
    assert_eq!(bytes.len(), 512);
    assert_eq!(&bytes[0..8], &[1, 2, 3, 4, 5, 6, 7, 8]);
    assert!(bytes[8..256].iter().all(|&b| b == 0));
    assert_eq!(&bytes[256..264], &[9, 10, 11, 12, 13, 14, 15, 16]);
    assert!(bytes[264..].iter().all(|&b| b == 0));
}

#[test]
fn red_and_blue_swap_per_pixel() {
    let mut d = vec![1, 2, 3, 4, 5, 6, 7, 8, 9, 10];
    bgra_to_rgba(&mut d);
    assert_eq!(d, vec![3, 2, 1, 4, 7, 6, 5, 8, 9, 10]);
    bgra_to_rgba(&mut d);
    assert_eq!(d, vec![1, 2, 3, 4, 5, 6, 7, 8, 9, 10]);
}

#[test]
fn triangles_batch_by_texture() {
    let batches = batch_by_texture(&[0, -1, 2, 0, -1], 9);
    assert_eq!(batches.len(), 3);
    let find = |k: u32| batches.iter().find(|b| b.0 == k).unwrap().1.clone();
    assert_eq!(find(0), vec![0, 3]);
    assert_eq!(find(9), vec![1, 4]);
    assert_eq!(find(2), vec![2]);
}

#[test]
fn format_choice_prefers_plain_bgra_then_rgba() {
    let (b, bs, r, o) = (FormatKind::Bgra8Unorm, FormatKind::Bgra8UnormSrgb, FormatKind::Rgba8Unorm, FormatKind::Other);
    assert_eq!(choose_format(&[bs, r, b]), 2);
    assert_eq!(choose_format(&[bs, o, r]), 2);
    assert_eq!(choose_format(&[o, bs]), 0);
    assert!(is_bgra(bs) && is_bgra(b) && !is_bgra(r) && !is_bgra(o));
}
