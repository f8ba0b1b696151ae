use more_convert::{unraw, VecInto};

#[test]
fn vec_into_widens_each_element() {
    let v: Vec<u8> = vec![1, 2, 255];
    let w: Vec<u32> = v.vec_into();
    assert_eq!(w, vec![1u32, 2, 255]);
    let empty: Vec<u64> = Vec::<u8>::new().vec_into();
    assert!(empty.is_empty());
}

#[test]
fn unraw_strips_the_marker() {
    assert_eq!(unraw(&"r#type".to_string()), "type");
    assert_eq!(unraw(&"r#r#x".to_string()), "x");
    assert_eq!(unraw(&"raw".to_string()), "raw");
    assert_eq!(unraw(&"r".to_string()), "r");
}
