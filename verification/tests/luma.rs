use luminet_blackhole_lib::plotting::Luma16Image;

#[test]
fn from_raw_takes_a_buffer_that_holds_the_image() {
    let img = Luma16Image::from_raw(3, 2, vec![1, 2, 3, 4, 5, 6]).expect("six samples");
    assert_eq!(img.width(), 3);
    assert_eq!(img.height(), 2);
    assert_eq!(img.into_raw(), vec![1, 2, 3, 4, 5, 6]);
}

#[test]
fn from_raw_takes_a_longer_buffer() {
    let img = Luma16Image::from_raw(1, 2, vec![9, 8, 7]).expect("three samples");
    assert_eq!(img.width(), 1);
    assert_eq!(img.height(), 2);
    assert_eq!(img.into_raw(), vec![9, 8, 7]);
}

#[test]
fn from_raw_refuses_a_buffer_that_is_too_short() {
    assert!(Luma16Image::from_raw(3, 2, vec![1, 2, 3, 4, 5]).is_none());
    assert!(Luma16Image::from_raw(1, 1, vec![]).is_none());
    assert!(Luma16Image::from_raw(u32::MAX, u32::MAX, vec![0; 16]).is_none());
}

#[test]
fn from_raw_takes_an_empty_image() {
    let img = Luma16Image::from_raw(0, 0, vec![]).expect("no samples needed");
    assert_eq!(img.width(), 0);
    assert_eq!(img.height(), 0);
    assert!(img.into_raw().is_empty());

    let img = Luma16Image::from_raw(0, 7, vec![42]).expect("no samples needed");
    assert_eq!(img.width(), 0);
    assert_eq!(img.height(), 7);
    assert_eq!(img.into_raw(), vec![42]);
}

#[test]
fn width_and_height_are_not_swapped() {
    let img = Luma16Image::from_raw(5, 1, vec![0; 5]).expect("five samples");
    assert_eq!(img.width(), 5);
    assert_eq!(img.height(), 1);
}
