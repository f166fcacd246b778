use lolbench::error::Error;
use lolbench::shield::{mask_ranges_of, shield_cpus};

#[test]
fn masks_of_ids_and_ranges() {
    assert_eq!(shield_cpus("0,1,2", 8), Ok(vec![0, 1, 2]));
    assert_eq!(shield_cpus("0-2,4", 8), Ok(vec![0, 1, 2, 4]));
    assert_eq!(shield_cpus("7", 8), Ok(vec![7]));
    assert_eq!(shield_cpus("3-3,1", 8), Ok(vec![3, 1]));
    assert_eq!(mask_ranges_of(b"0-2,4"), Some(vec![(0, 2), (4, 4)]));
    assert_eq!(shield_cpus("0000000001,002", 8), Ok(vec![1, 2]));
}

#[test]
fn malformed_masks() {
    for m in ["", "a", "1,", ",1", "2-0", "1-", "-1", "1-2-3", "1,,2", " 1"] {
        assert_eq!(shield_cpus(m, 8), Err(Error::Config), "mask {:?}", m);
    }
}

#[test]
fn mask_naming_missing_cpu() {
    assert_eq!(shield_cpus("0-8", 8), Err(Error::ShieldUnavailable));
    assert_eq!(shield_cpus("1,9", 8), Err(Error::ShieldUnavailable));
    assert_eq!(shield_cpus("0", 0), Err(Error::ShieldUnavailable));
    assert_eq!(shield_cpus("999999999", 8), Err(Error::ShieldUnavailable));
    assert_eq!(shield_cpus("0123456789", 8), Err(Error::ShieldUnavailable));
    assert_eq!(shield_cpus("1000000000", 8), Err(Error::ShieldUnavailable));
    assert_eq!(shield_cpus("5-1000000000", 8), Err(Error::ShieldUnavailable));
    assert_eq!(shield_cpus("0,99999999999999999999999", u32::MAX), Err(Error::ShieldUnavailable));
    assert_eq!(shield_cpus("4294967295", u32::MAX), Err(Error::ShieldUnavailable));
    assert_eq!(shield_cpus("4294967294", u32::MAX), Ok(vec![4294967294]));
}
