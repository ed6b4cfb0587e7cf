use pendulum_raster::{compute_shard, push_decimal, Rgb, PPM, THREAD_COUNT};

fn tens(x: usize, y: usize) -> Rgb {
    ((x * 10) as u8, (y * 10) as u8, 0)
}

fn mix(x: usize, y: usize) -> Rgb {
    ((x * 7 + y) as u8, (x ^ y) as u8, (x * y) as u8)
}

fn render(width: usize, height: usize, workers: usize, f: fn(usize, usize) -> Rgb) -> PPM {
    let mut ppm = PPM::new(width, height);
    let size = width / workers;
    let shards: Vec<Vec<Vec<Rgb>>> = (0..workers).map(|t| compute_shard(t, size, height, f)).collect();
    ppm.merge_shards(shards);
    ppm
}

fn text(ppm: &PPM) -> String {
    String::from_utf8(ppm.contents()).unwrap()
}

#[test]
fn new_grid_is_black() {
    let ppm = PPM::new(3, 2);
    assert_eq!(ppm.width(), 3);
    assert_eq!(ppm.height(), 2);
    for x in 0..3 {
        for y in 0..2 {
            assert_eq!(ppm.pixel(x, y), (0, 0, 0));
        }
    }
}

#[test]
fn four_by_four_text() {
    let ppm = render(4, 4, 4, tens);
    let s = text(&ppm);
    assert!(s.starts_with("P3\n4 4\n255\n"));
    let body = &s["P3\n4 4\n255\n".len()..];
    assert!(body.starts_with("0 0 0 "));
    let triples: Vec<&str> = body.split_whitespace().collect();
    assert_eq!(triples.len(), 48);
    assert_eq!(&triples[12..15], &["10", "0", "0"]);
    assert_eq!(
        body,
        "0 0 0 0 10 0 0 20 0 0 30 0 10 0 0 10 10 0 10 20 0 10 30 0 \
         20 0 0 20 10 0 20 20 0 20 30 0 30 0 0 30 10 0 30 20 0 30 30 0 "
    );
    assert!(body.ends_with(' '));
}

#[test]
fn empty_grid_text_is_header_only() {
    let ppm = PPM::new(0, 0);
    assert_eq!(text(&ppm), "P3\n0 0\n255\n");
}

#[test]
fn wide_values_are_written_in_full() {
    let mut ppm = PPM::new(1, 1);
    let shards = vec![vec![vec![(255u8, 100u8, 7u8)]]];
    ppm.merge_shards(shards);
    assert_eq!(text(&ppm), "P3\n1 1\n255\n255 100 7 ");
}

#[test]
fn shard_counts_agree_with_sequential() {
    let (width, height) = (8, 5);
    for workers in [1usize, 2, 4, 8] {
        let ppm = render(width, height, workers, mix);
        for x in 0..width {
            for y in 0..height {
                assert_eq!(ppm.pixel(x, y), mix(x, y), "workers {workers} at ({x}, {y})");
            }
        }
    }
}

#[test]
fn shard_order_does_not_depend_on_position() {
    let a = render(16, 3, THREAD_COUNT, mix);
    let b = render(16, 3, 1, mix);
    assert_eq!(a.contents(), b.contents());
}

#[test]
fn remainder_columns_stay_black() {
    let ppm = render(10, 2, 4, tens);
    for x in 0..8 {
        assert_eq!(ppm.pixel(x, 1), tens(x, 1));
    }
    for x in 8..10 {
        for y in 0..2 {
            assert_eq!(ppm.pixel(x, y), (0, 0, 0));
        }
    }
}

#[test]
fn shard_holds_its_own_columns() {
    let shard = compute_shard(2, 3, 2, tens);
    assert_eq!(shard.len(), 3);
    assert_eq!(shard[0], vec![tens(6, 0), tens(6, 1)]);
    assert_eq!(shard[2], vec![tens(8, 0), tens(8, 1)]);
}

#[test]
fn decimal_digits() {
    let mut out = b"x".to_vec();
    push_decimal(&mut out, 0);
    push_decimal(&mut out, 4096);
    push_decimal(&mut out, 9);
    assert_eq!(out, b"x040969".to_vec());
}
