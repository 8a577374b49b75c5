use tile_stitcher::naming::output_file_name;

#[test]
fn first_sheet_is_image0() {
    assert_eq!(output_file_name(0), "image0_stitched.png");
}

#[test]
fn sheets_are_numbered_in_decimal() {
    assert_eq!(output_file_name(1), "image1_stitched.png");
    assert_eq!(output_file_name(9), "image9_stitched.png");
    assert_eq!(output_file_name(10), "image10_stitched.png");
    assert_eq!(output_file_name(52), "image52_stitched.png");
    assert_eq!(output_file_name(100), "image100_stitched.png");
    assert_eq!(output_file_name(1234567890), "image1234567890_stitched.png");
}

#[test]
fn numbering_agrees_with_std_formatting() {
    for i in [0usize, 7, 19, 48, 99, 101, 4096, 65535, usize::MAX] {
        assert_eq!(output_file_name(i), format!("image{}_stitched.png", i));
    }
}
