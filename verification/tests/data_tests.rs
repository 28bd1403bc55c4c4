use std::io::Write;

use mnist_net::load_data;
use mnist_net::load_raw;
use mnist_net::DataError;
use mnist_net::MnistData;
use mnist_net::Scalar;

#[derive(Clone, Copy, Debug, PartialEq)]
struct F(f64);

impl Scalar for F {
    // the spec-level names are erased from verified code and never called at
    // run time; give them the same meaning as the executable methods
    fn spec_zero() -> F {
        F(0.0)
    }
    fn spec_one() -> F {
        F(1.0)
    }
    fn spec_plus(self, other: F) -> F {
        F(self.0 + other.0)
    }
    fn spec_minus(self, other: F) -> F {
        F(self.0 - other.0)
    }
    fn spec_times(self, other: F) -> F {
        F(self.0 * other.0)
    }
    fn spec_sigmoid(self) -> F {
        F(1.0 / (1.0 + std::f64::consts::E.powf(-self.0)))
    }
    fn spec_d_sigmoid(self) -> F {
        F(self.0 * (1.0 - self.0))
    }
    fn spec_from_pixel(p: u8) -> F {
        F(p as f64 / 255.0)
    }
    fn zero() -> F {
        F(0.0)
    }
    fn one() -> F {
        F(1.0)
    }
    fn plus(self, other: F) -> F {
        F(self.0 + other.0)
    }
    fn minus(self, other: F) -> F {
        F(self.0 - other.0)
    }
    fn times(self, other: F) -> F {
        F(self.0 * other.0)
    }
    fn sigmoid(self) -> F {
        F(1.0 / (1.0 + std::f64::consts::E.powf(-self.0)))
    }
    fn d_sigmoid(self) -> F {
        F(self.0 * (1.0 - self.0))
    }
    fn from_pixel(p: u8) -> F {
        F(p as f64 / 255.0)
    }
}

fn gz(bytes: &[u8]) -> Vec<u8> {
    let mut enc = flate2::write::GzEncoder::new(Vec::new(), flate2::Compression::default());
    enc.write_all(bytes).unwrap();
    enc.finish().unwrap()
}

fn labels_stream(magic: u32, count: u32, labels: &[u8]) -> Vec<u8> {
    let mut s = Vec::new();
    s.extend_from_slice(&magic.to_be_bytes());
    s.extend_from_slice(&count.to_be_bytes());
    s.extend_from_slice(labels);
    s
}

fn images_stream(magic: u32, count: u32, rows: u32, cols: u32, pixels: &[u8]) -> Vec<u8> {
    let mut s = Vec::new();
    s.extend_from_slice(&magic.to_be_bytes());
    s.extend_from_slice(&count.to_be_bytes());
    s.extend_from_slice(&rows.to_be_bytes());
    s.extend_from_slice(&cols.to_be_bytes());
    s.extend_from_slice(pixels);
    s
}

#[test]
fn three_records() {
    let labels = gz(&labels_stream(2049, 3, &[0, 5, 9]));
    let images = gz(&images_stream(2051, 3, 1, 1, &[0, 255, 128]));
    let data = load_data::<F>(&labels, &images).unwrap();
    assert_eq!(data.len(), 3);
    assert_eq!(data[0].inputs, vec![F(0.0)]);
    assert_eq!(data[1].inputs, vec![F(1.0)]);
    assert_eq!(data[2].inputs, vec![F(128.0 / 255.0)]);
    let expected_hot = [0usize, 5, 9];
    for (i, ex) in data.iter().enumerate() {
        assert_eq!(ex.target.len(), 10);
        for j in 0..10 {
            if j == expected_hot[i] {
                assert_eq!(ex.target[j], F(1.0));
            } else {
                assert_eq!(ex.target[j], F(0.0));
            }
        }
    }
    assert_eq!(data[0].classification, 0);
    assert_eq!(data[1].classification, 5);
    assert_eq!(data[2].classification, 9);
}

#[test]
fn bad_magic_fails() {
    let labels = gz(&labels_stream(1234, 3, &[0, 5, 9]));
    let images = gz(&images_stream(2051, 3, 1, 1, &[0, 255, 128]));
    assert!(matches!(load_data::<F>(&labels, &images), Err(DataError::BadMagic)));
}

#[test]
fn bad_magic_images_fails() {
    let labels = gz(&labels_stream(2049, 3, &[0, 5, 9]));
    let images = gz(&images_stream(7, 3, 1, 1, &[0, 255, 128]));
    assert!(matches!(load_data::<F>(&labels, &images), Err(DataError::BadMagic)));
}

#[test]
fn swapped_streams_fail() {
    // a labels stream whose magic says "images", and the other way round
    let labels = gz(&images_stream(2051, 3, 1, 1, &[0, 255, 128]));
    let images = gz(&labels_stream(2049, 3, &[0, 5, 9]));
    assert!(matches!(load_data::<F>(&labels, &images), Err(DataError::BadMagic)));
}

#[test]
fn truncated_header_fails() {
    let labels = gz(&[0x00, 0x00]);
    let images = gz(&images_stream(2051, 0, 1, 1, &[]));
    assert!(matches!(load_data::<F>(&labels, &images), Err(DataError::Truncated)));
}

#[test]
fn truncated_labels_payload_fails() {
    let labels = gz(&labels_stream(2049, 5, &[1, 2]));
    let images = gz(&images_stream(2051, 5, 1, 1, &[0, 0, 0, 0, 0]));
    assert!(matches!(load_data::<F>(&labels, &images), Err(DataError::Truncated)));
}

#[test]
fn truncated_images_payload_fails() {
    let labels = gz(&labels_stream(2049, 2, &[1, 2]));
    let images = gz(&images_stream(2051, 2, 2, 2, &[9, 9, 9]));
    assert!(matches!(load_data::<F>(&labels, &images), Err(DataError::Truncated)));
}

#[test]
fn corrupt_gzip_fails() {
    let labels = vec![0x1f, 0x8b, 0xff, 0x00, 0x01];
    let images = gz(&images_stream(2051, 0, 1, 1, &[]));
    assert!(matches!(load_data::<F>(&labels, &images), Err(DataError::Io)));
}

#[test]
fn label_out_of_range_fails() {
    let labels = gz(&labels_stream(2049, 2, &[3, 10]));
    let images = gz(&images_stream(2051, 2, 1, 1, &[7, 8]));
    assert!(matches!(load_data::<F>(&labels, &images), Err(DataError::BadLabel)));
}

#[test]
fn pairs_up_to_shorter_count() {
    let labels = gz(&labels_stream(2049, 2, &[1, 2]));
    let images = gz(&images_stream(2051, 3, 1, 1, &[10, 20, 30]));
    let data = load_data::<F>(&labels, &images).unwrap();
    assert_eq!(data.len(), 2);
    assert_eq!(data[0].classification, 1);
    assert_eq!(data[1].classification, 2);
}

#[test]
fn raw_examples_keep_bytes() {
    let labels = gz(&labels_stream(2049, 2, &[4, 7]));
    let images = gz(&images_stream(2051, 2, 2, 1, &[1, 2, 3, 4]));
    let raws = load_raw(&labels, &images).unwrap();
    assert_eq!(raws.len(), 2);
    assert_eq!(raws[0].pixels, vec![1, 2]);
    assert_eq!(raws[0].label, 4);
    assert_eq!(raws[1].pixels, vec![3, 4]);
    assert_eq!(raws[1].label, 7);
}

#[test]
fn header_of_images_stream() {
    let stream = gz(&images_stream(2051, 3, 1, 2, &[0, 255, 128, 1, 2, 3]));
    let parsed = MnistData::new(&stream).unwrap();
    assert_eq!(parsed.sizes, vec![3, 1, 2]);
    assert_eq!(parsed.data, vec![0, 255, 128, 1, 2, 3]);
}

#[test]
fn header_of_labels_stream() {
    let stream = gz(&labels_stream(2049, 3, &[0, 5, 9]));
    let parsed = MnistData::new(&stream).unwrap();
    assert_eq!(parsed.sizes, vec![3]);
    assert_eq!(parsed.data, vec![0, 5, 9]);
}
