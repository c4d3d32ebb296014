use imghash::buffer::HashBuilder;
use imghash::error::HashError;
use imghash::pipeline::{hash_from_pixels, hash_img};
use rayon::iter::{IndexedParallelIterator, IntoParallelRefIterator, ParallelIterator};

#[test]
fn empty_buffer_renders_empty() {
    let b = HashBuilder::new(0);
    let h = b.finalize().expect("a zero-target buffer is always ready");
    assert_eq!(h.size(), 0);
    assert_eq!(h.to_text(), "");
}

#[test]
fn first_bit_becomes_most_significant() {
    let mut b = HashBuilder::new(64);
    b.add_bit(true);
    for _ in 0..63 {
        b.add_bit(false);
    }
    let h = b.finalize().unwrap();
    assert_eq!(h.to_text(), "8000000000000000");
}

#[test]
fn last_bit_becomes_least_significant() {
    let mut b = HashBuilder::new(64);
    for _ in 0..63 {
        b.add_bit(false);
    }
    b.add_bit(true);
    let h = b.finalize().unwrap();
    assert_eq!(h.to_text(), "0000000000000001");
}

#[test]
fn width_of_22_bits_is_6_digits() {
    let mut b = HashBuilder::new(22);
    for _ in 0..22 {
        b.add_bit(true);
    }
    let h = b.finalize().unwrap();
    let t = h.to_text();
    assert_eq!(t.len(), 6);
    assert_eq!(t, "3fffff");
}

#[test]
fn multi_word_130_bits_is_33_digits() {
    let mut b = HashBuilder::new(130);
    for i in 0..130 {
        b.add_bit(i % 2 == 0);
    }
    let h = b.finalize().unwrap();
    let t = h.to_text();
    assert_eq!(t.len(), 33);
    assert_eq!(t, "aaaaaaaaaaaaaaaaaaaaaaaaaaaaaaaa2");
}

#[test]
fn underfilled_buffer_is_refused() {
    let mut b = HashBuilder::new(10);
    for _ in 0..5 {
        b.add_bit(true);
    }
    assert!(matches!(b.finalize(), Err(HashError::NotEnoughBits)));
}

#[test]
fn threshold_on_two_by_two_grid() {
    let pixels = vec![10u8, 200, 10, 200];
    let h = hash_from_pixels(&pixels, 2, 2).expect("the grid is complete");
    assert_eq!(h.size(), 4);
    assert_eq!(h.to_text(), "5");
}

#[test]
fn average_uses_integer_floor() {
    // sum 301 over 4 pixels: average floors to 75, so 75 counts as set.
    let pixels = vec![75u8, 75, 75, 76];
    let h = hash_from_pixels(&pixels, 4, 1).unwrap();
    assert_eq!(h.to_text(), "f");
}

#[test]
fn uniform_grid_is_all_ones() {
    // every pixel equals the average, and the threshold is inclusive.
    let pixels = vec![128u8; 64];
    let h = hash_from_pixels(&pixels, 8, 8).unwrap();
    assert_eq!(h.to_text(), "ffffffffffffffff");
}

#[test]
fn decode_failure_returns_decoder_error() {
    let r = hash_img("this/path/does/not/exist.png", 8, 8);
    assert!(matches!(r, Err(HashError::DecoderError(_))));
}

fn save_half_and_half(path: &str) {
    let img = image::ImageBuffer::from_fn(8, 8, |x, _y| {
        image::Luma([if x < 4 { 0u8 } else { 255u8 }])
    });
    img.save(path).expect("writing the test image");
}

#[test]
fn hash_of_a_real_image() {
    let path = "/tmp/imghash_test_half.png";
    save_half_and_half(path);
    let h = hash_img(path, 8, 8).expect("the image decodes");
    assert_eq!(h.size(), 64);
    // left half dark, right half bright: each row renders as 0f.
    assert_eq!(h.to_text(), "0f0f0f0f0f0f0f0f");
}

#[test]
fn same_file_hashes_identically() {
    let path = "/tmp/imghash_test_same.png";
    save_half_and_half(path);
    let a = hash_img(path, 8, 8).unwrap().to_text();
    let b = hash_img(path, 8, 8).unwrap().to_text();
    assert_eq!(a, b);
}

#[test]
fn one_bad_path_does_not_spoil_a_batch() {
    let good = "/tmp/imghash_test_batch.png";
    save_half_and_half(good);
    let inputs = [good, "no/such/file.png", good];
    let results: Vec<Result<String, String>> = inputs
        .iter()
        .map(|p| match hash_img(p, 8, 8) {
            Ok(h) => Ok(h.to_text()),
            Err(_) => Err(p.to_string()),
        })
        .collect();
    assert_eq!(results[0], Ok("0f0f0f0f0f0f0f0f".to_string()));
    assert_eq!(results[1], Err("no/such/file.png".to_string()));
    assert_eq!(results[2], Ok("0f0f0f0f0f0f0f0f".to_string()));
}

#[test]
fn concurrent_hashing_matches_sequential() {
    let paths: Vec<String> = (0..8)
        .map(|i| format!("/tmp/imghash_test_par_{}.png", i))
        .collect();
    for (i, p) in paths.iter().enumerate() {
        let shade = (i as u8) * 20;
        let img = image::ImageBuffer::from_fn(8, 8, |x, _y| {
            image::Luma([if x < 4 { shade } else { 255u8 }])
        });
        img.save(p).expect("writing the test image");
    }
    let sequential: Vec<String> = paths
        .iter()
        .map(|p| hash_img(p, 8, 8).unwrap().to_text())
        .collect();
    let mut parallel: Vec<(usize, String)> = paths
        .par_iter()
        .enumerate()
        .map(|(i, p)| (i, hash_img(p, 8, 8).unwrap().to_text()))
        .collect();
    parallel.sort_by_key(|(i, _)| *i);
    let parallel: Vec<String> = parallel.into_iter().map(|(_, t)| t).collect();
    assert_eq!(sequential, parallel);
}
