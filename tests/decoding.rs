use esp_csi_tui::decode::{select_pairs, split_fields};

fn parse_field(f: &[u8]) -> Option<f64> {
    std::str::from_utf8(f).ok()?.trim().parse::<f64>().ok()
}

fn decode(line: &str) -> Option<Vec<f64>> {
    let fields = split_fields(line.as_bytes())?;
    let values: Vec<Option<f64>> = fields.iter().map(|f| parse_field(f)).collect();
    let pairs = select_pairs(&values)?;
    Some(pairs.iter().map(|&(im, re)| (re * re + im * im).sqrt()).collect())
}

#[test]
fn two_subcarriers_each_on_one_axis() {
    // (imaginary 0, real 3) and (imaginary 0, real 4)
    assert_eq!(decode("CSI,0,3,0,4"), Some(vec![3.0, 4.0]));
}

#[test]
fn three_four_five_triangle() {
    assert_eq!(decode("CSI,3,4"), Some(vec![5.0]));
}

#[test]
fn all_zero_pairs() {
    assert_eq!(decode("CSI,0,0,0,0,0,0"), Some(vec![0.0, 0.0, 0.0]));
}

#[test]
fn wrong_marker_is_not_a_measurement() {
    assert_eq!(decode("garbage,1,2"), None);
    assert!(split_fields(b"garbage,1,2").is_none());
}

#[test]
fn marker_not_at_start_is_rejected() {
    assert!(split_fields(b"xCSI,1,2").is_none());
    assert!(split_fields(b" CSI,1,2").is_none());
    assert!(split_fields(b"CS").is_none());
}

#[test]
fn empty_line_is_not_a_measurement() {
    assert!(split_fields(b"").is_none());
    assert_eq!(decode(""), None);
}

#[test]
fn trailing_unpaired_field_is_ignored() {
    let r = decode("CSI,1,2,abc").unwrap();
    assert_eq!(r.len(), 1);
    assert!((r[0] - 5.0f64.sqrt()).abs() < 1e-12);
}

#[test]
fn bad_pair_is_skipped_and_later_pairs_kept() {
    assert_eq!(decode("CSI,1,x,3,4,0,2"), Some(vec![5.0, 2.0]));
}

#[test]
fn marker_without_pairs_is_not_a_measurement() {
    assert_eq!(decode("CSI"), None);
    assert_eq!(decode("CSI,"), None);
    assert_eq!(decode("CSI,5"), None);
    assert_eq!(decode("CSI,a,b,c,d"), None);
}

#[test]
fn fields_are_trimmed_before_parsing() {
    assert_eq!(decode("CSI, 3 ,\t4 "), Some(vec![5.0]));
}

#[test]
fn split_keeps_every_field_after_the_first() {
    let f = split_fields(b"CSI,a,,b c").unwrap();
    assert_eq!(f, vec![b"a".to_vec(), b"".to_vec(), b"b c".to_vec()]);
    assert_eq!(split_fields(b"CSI").unwrap(), Vec::<Vec<u8>>::new());
    assert_eq!(split_fields(b"CSI,").unwrap(), vec![Vec::<u8>::new()]);
    assert_eq!(split_fields(b"CSIX,7").unwrap(), vec![b"7".to_vec()]);
}

#[test]
fn select_pairs_keeps_complete_pairs_in_order() {
    let v = vec![Some(1), Some(2), None, Some(4), Some(5), Some(6), Some(7)];
    assert_eq!(select_pairs(&v), Some(vec![(1, 2), (5, 6)]));
    let w: Vec<Option<i32>> = vec![None, Some(1), Some(2), None];
    assert_eq!(select_pairs(&w), None);
    let e: Vec<Option<i32>> = vec![];
    assert_eq!(select_pairs(&e), None);
}

#[test]
fn all_valid_fields_give_one_value_per_pair() {
    let r = decode("CSI,1,1,-2,0,0,-7,6,8").unwrap();
    assert_eq!(r.len(), 4);
    assert!((r[0] - 2.0f64.sqrt()).abs() < 1e-12);
    assert_eq!(r[1], 2.0);
    assert_eq!(r[2], 7.0);
    assert_eq!(r[3], 10.0);
}
