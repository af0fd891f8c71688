use mlp::data::{parse_images, parse_labels, read_be_u32, IdxError, IMAGES_MAGIC, LABELS_MAGIC};

fn label_file(labels: &[u8]) -> Vec<u8> {
    let mut b = vec![0u8, 0, 8, 1];
    b.extend_from_slice(&(labels.len() as u32).to_be_bytes());
    b.extend_from_slice(labels);
    b
}

#[test]
fn reads_big_endian_words() {
    let b = [0x12u8, 0x34, 0x56, 0x78, 0x9a];
    assert_eq!(read_be_u32(&b, 0), 0x1234_5678);
    assert_eq!(read_be_u32(&b, 1), 0x3456_789a);
    assert_eq!(read_be_u32(&[0, 0, 8, 3], 0), IMAGES_MAGIC);
    assert_eq!(read_be_u32(&[0, 0, 8, 1], 0), LABELS_MAGIC);
}

#[test]
fn parses_labels() {
    let b = label_file(&[5, 0, 4, 1, 9]);
    assert_eq!(parse_labels(&b), Ok(vec![5, 0, 4, 1, 9]));
}

#[test]
fn parses_empty_label_file() {
    assert_eq!(parse_labels(&label_file(&[])), Ok(vec![]));
}

#[test]
fn ignores_bytes_after_the_labels() {
    let mut b = label_file(&[7, 2]);
    b.extend_from_slice(&[1, 1, 1]);
    assert_eq!(parse_labels(&b), Ok(vec![7, 2]));
}

#[test]
fn rejects_label_file_with_image_magic() {
    let mut b = label_file(&[1]);
    b[3] = 3;
    assert_eq!(parse_labels(&b), Err(IdxError::BadMagic(2051)));
}

#[test]
fn rejects_short_label_files() {
    assert_eq!(parse_labels(&[]), Err(IdxError::Truncated));
    assert_eq!(parse_labels(&[0, 0, 8]), Err(IdxError::Truncated));
    assert_eq!(parse_labels(&[0, 0, 8, 1, 0, 0]), Err(IdxError::Truncated));
    let mut b = label_file(&[1, 2, 3]);
    b.pop();
    assert_eq!(parse_labels(&b), Err(IdxError::Truncated));
}

#[test]
fn bad_magic_is_reported_before_a_short_header() {
    assert_eq!(parse_labels(&[0, 0, 0, 7]), Err(IdxError::BadMagic(7)));
    assert!(matches!(parse_images(&[1, 0, 0, 0, 0]), Err(IdxError::BadMagic(0x0100_0000))));
}

fn image_file(n: u32, rows: u32, cols: u32, pixels: &[u8]) -> Vec<u8> {
    let mut b = IMAGES_MAGIC.to_be_bytes().to_vec();
    b.extend_from_slice(&n.to_be_bytes());
    b.extend_from_slice(&rows.to_be_bytes());
    b.extend_from_slice(&cols.to_be_bytes());
    b.extend_from_slice(pixels);
    b
}

#[test]
fn parses_images() {
    let b = image_file(2, 2, 3, &[1, 2, 3, 4, 5, 6, 7, 8, 9, 10, 11, 12]);
    let imgs = parse_images(&b).unwrap();
    assert_eq!(imgs.rows, 2);
    assert_eq!(imgs.cols, 3);
    assert_eq!(imgs.images, vec![vec![1, 2, 3, 4, 5, 6], vec![7, 8, 9, 10, 11, 12]]);
}

#[test]
fn parses_image_file_without_images() {
    let imgs = parse_images(&image_file(0, 28, 28, &[])).unwrap();
    assert_eq!((imgs.rows, imgs.cols), (28, 28));
    assert!(imgs.images.is_empty());
}

#[test]
fn parses_empty_images() {
    let imgs = parse_images(&image_file(3, 0, 5, &[])).unwrap();
    assert_eq!(imgs.images, vec![Vec::<u8>::new(), vec![], vec![]]);
}

#[test]
fn rejects_bad_image_files() {
    let mut b = image_file(1, 1, 1, &[9]);
    b[3] = 1;
    assert!(matches!(parse_images(&b), Err(IdxError::BadMagic(2049))));
    assert!(matches!(parse_images(&image_file(2, 2, 2, &[0; 7])), Err(IdxError::Truncated)));
    assert!(matches!(parse_images(&image_file(2, 2, 2, &[0; 8])[..15]), Err(IdxError::Truncated)));
    assert!(matches!(parse_images(&[0, 0, 8]), Err(IdxError::Truncated)));
    let huge = image_file(u32::MAX, u32::MAX, u32::MAX, &[0; 4]);
    assert!(matches!(parse_images(&huge), Err(IdxError::Truncated)));
}
