use rustwarp::image::{Image, Pix, Point};
use rustwarp::layout::{WDevToHost, WHostToDev};
use rustwarp::matrix::WMat;
use rustwarp::tester::{compare_outputs, WTestResult, WTestable, WType};
use rustwarp::transform::{make_vec_image, Pixel, Vec2, Vec2H};

#[test]
fn test_image_get_and_set_round_trip() {
    let mut im = Image::new(Point::new(4, 3));
    assert_eq!(im.data.len(), 12);
    assert_eq!(*im.get(0, 0), Pix::new(0, 0, 0, 0));
    *im.get_mut(2, 1) = Pix::new(9, 8, 7, 6);
    assert_eq!(*im.get(2, 1), Pix::new(9, 8, 7, 6));
    assert_eq!(*im.get(1, 2), Pix::new(0, 0, 0, 0));
}

#[test]
fn test_image_bytes_are_packed_pixels() {
    let mut im = Image::new(Point::new(2, 1));
    *im.get_mut(0, 0) = Pix::new(1, 2, 3, 4);
    *im.get_mut(1, 0) = Pix::new(5, 6, 7, 8);
    let b = im.bytes();
    assert_eq!(b, vec![1, 2, 3, 4, 5, 6, 7, 8]);
    let mut back = Image::new(Point::new(2, 1));
    back.from_bytes(&b);
    assert_eq!(*back.get(0, 0), Pix::new(1, 2, 3, 4));
    assert_eq!(*back.get(1, 0), Pix::new(5, 6, 7, 8));
}

#[test]
fn test_image_rgb_bytes_drop_fourth_channel() {
    let mut im = Image::new(Point::new(2, 1));
    *im.get_mut(0, 0) = Pix::new(10, 20, 30, 40);
    *im.get_mut(1, 0) = Pix::new(50, 60, 70, 80);
    assert_eq!(im.rgb_bytes(), vec![10, 20, 30, 50, 60, 70]);
}

#[test]
fn test_pix_add_saturates() {
    let p = Pix::new(200, 100, 0, 255).add(&Pix::new(100, 100, 5, 1));
    assert_eq!(p, Pix::new(255, 200, 5, 255));
    let q = Pixel::new(250, 1, 2).add(&Pixel::new(10, 1, 2));
    assert_eq!(q, Pixel::new(255, 2, 4));
}

#[test]
fn test_make_vec_image_extent() {
    let im = make_vec_image(Vec2::new(3u32, 2u32));
    assert_eq!(im.len(), 2);
    assert!(im.iter().all(|row| row.len() == 3));
    assert!(im.iter().all(|row| row.iter().all(|p| *p == Pixel::new(0, 0, 0))));
}

#[test]
fn test_vec2h_normalize_and_transform() {
    let mut v: Vec2H<i64> = Vec2H::new(4, 6, 2);
    v.normalize();
    assert_eq!((v.x, v.y, v.w), (2, 3, 1));

    let h = Vec2::new(8i64, 9i64).to_homogeneous();
    assert_eq!((h.x, h.y, h.w), (8, 9, 1));

    // identity transform leaves a unit-weight vector unchanged
    let id: [[i64; 3]; 3] = [[1, 0, 0], [0, 1, 0], [0, 0, 1]];
    let t = Vec2H::new(5i64, -7i64, 1i64).transform(&id);
    assert_eq!((t.x, t.y, t.w), (5, -7, 1));

    // scaling by the weight then dividing through recovers the scale
    let m: [[i64; 3]; 3] = [[2, 0, 1], [0, 2, 1], [0, 0, 1]];
    let t = Vec2H::new(3i64, 4i64, 1i64).transform(&m);
    assert_eq!((t.x, t.y, t.w), (7, 9, 1));
}

#[test]
fn test_matrix_layouts_and_bytes() {
    // rows of a row-major fill land transposed into columns
    let rows: Vec<Vec<i32>> = vec![vec![1, 2, 3], vec![4, 5, 6], vec![7, 8, 9]];
    let m = WMat::<i32>::from_row_major(&rows, 3, 4, 0).unwrap();
    assert_eq!(m.get(0, 0), 1);
    assert_eq!(m.get(2, 0), 3);
    assert_eq!(m.get(0, 2), 7);

    let cols: Vec<Vec<i32>> = vec![vec![1, 4, 7], vec![2, 5, 8], vec![3, 6, 9]];
    let c = WMat::<i32>::from_col_major(&cols, 3, 4, 0).unwrap();
    for x in 0..3 {
        for y in 0..3 {
            assert_eq!(c.get(x, y), m.get(x, y));
        }
    }

    // column stride of four words: 3 columns x 4 entries x 4 bytes
    let b = m.bytes();
    assert_eq!(b.len(), 48);
    assert_eq!(&b[0..4], &[1, 0, 0, 0]);
    assert_eq!(&b[12..16], &[0, 0, 0, 0]); // the padding entry of column 0
    assert_eq!(&b[16..20], &[2, 0, 0, 0]);

    let mut m = m;
    m.set(1, 1, 42);
    assert_eq!(m.get(1, 1), 42);
    assert_eq!(m.get(1, 0), 2);
}

#[test]
fn test_matrix_rejects_short_stride() {
    let rows: Vec<Vec<i32>> = vec![vec![1, 2], vec![3, 4], vec![5, 6]];
    assert!(WMat::<i32>::from_row_major(&rows, 2, 2, 0).is_err());
    assert!(WMat::<i32>::from_row_major(&rows, 2, 3, 0).is_ok());
}

#[test]
fn test_compare_outputs_reports_first_mismatch() {
    let r = compare_outputs(vec![1u32, 2, 3], vec![1u32, 2, 3]);
    assert!(matches!(r, WTestResult::Success));

    let r = compare_outputs(vec![1u32, 2, 3, 4], vec![1u32, 9, 9, 4]);
    match r {
        WTestResult::TestFail(f) => {
            assert_eq!(f.failed_at_value, 1);
            assert_eq!(f.total_values, 4);
            assert_eq!(f.expected, vec![1, 2, 3, 4]);
            assert_eq!(f.got, vec![1, 9, 9, 4]);
        }
        _ => panic!("expected a failure report"),
    }
}

#[test]
fn test_wgsl_type_tags() {
    assert_eq!(<u32 as WTestable>::wgsl_type(), WType::Primitive("u32"));
    assert_eq!(<Pix as WTestable>::wgsl_type().inner(), "u32");
    assert!(matches!(
        <rustwarp::wavefront::NWInfo as WTestable>::wgsl_type(),
        WType::Struct(_)
    ));
}

#[test]
fn test_random_samples_have_requested_length() {
    let s = rustwarp::sample::random_sequence(17);
    assert_eq!(s.len(), 17);
    let v: Vec<u32> = rustwarp::sample::random_scalars(9);
    assert_eq!(v.len(), 9);
}
