use mnist_idx::error::MnistError;
use mnist_idx::image::ImageReader;

/// An image-batch source: the magic number, two 2-by-2 images.
fn two_small_images() -> Vec<u8> {
    vec![
        0x00, 0x00, 0x08, 0x03, // magic number
        0x00, 0x00, 0x00, 0x02, // two images
        0x00, 0x00, 0x00, 0x02, // width 2
        0x00, 0x00, 0x00, 0x02, // height 2
        1, 2, 3, 4, // first image
        5, 6, 7, 8, // second image
    ]
}

#[test]
fn parses_image_batch_header() {
    let reader = ImageReader::new(two_small_images()).unwrap();
    assert_eq!(reader.num_images(), 2);
    assert_eq!(reader.image_width(), 2);
    assert_eq!(reader.image_height(), 2);
    assert_eq!(reader.num_pixels(), 4);
}

#[test]
fn reads_images_in_order() {
    let mut reader = ImageReader::new(two_small_images()).unwrap();
    let first = reader.read_next_image().unwrap().unwrap();
    assert_eq!(first, vec![1u8, 2, 3, 4]);
    let second = reader.read_next_image().unwrap().unwrap();
    assert_eq!(second, vec![5u8, 6, 7, 8]);
    assert_eq!(reader.read_next_image(), Err(MnistError::UnexpectedEof));
}

#[test]
fn wrong_magic_number_is_invalid_format() {
    let mut data = two_small_images();
    data[3] = 0x01;
    assert!(matches!(ImageReader::new(data), Err(MnistError::InvalidFormat)));
}

#[test]
fn short_image_header_is_eof() {
    assert!(matches!(ImageReader::new(vec![0x00, 0x00]), Err(MnistError::UnexpectedEof)));
    let data = vec![0x00, 0x00, 0x08, 0x03, 0x00, 0x00, 0x00, 0x02];
    assert!(matches!(ImageReader::new(data), Err(MnistError::UnexpectedEof)));
}

#[test]
fn truncated_image_is_an_error() {
    let mut data = two_small_images();
    data.truncate(data.len() - 1);
    let mut reader = ImageReader::new(data).unwrap();
    assert!(reader.read_next_image().is_ok());
    assert_eq!(reader.read_next_image(), Err(MnistError::UnexpectedEof));
}
