use draw::{ColorBlendOverwrite, Image, Rect, Rgba};

#[test]
fn fill_rect_is_clipped_to_the_canvas() {
    let mut img = Image::new([4, 3]);
    {
        let mut c = img.as_canvas();
        c.fill_rect([2, 1], [5, 5], Rgba([1, 2, 3, 255]));
    }
    for y in 0..3u32 {
        for x in 0..4u32 {
            let expected = if x >= 2 && y >= 1 { Rgba([1, 2, 3, 255]) } else { Rgba([0, 0, 0, 0]) };
            assert!(img.get([x, y]) == expected);
        }
    }
}

#[test]
fn fill_and_clear_cover_the_window() {
    let mut img = Image::new_with_color([2, 2], Rgba([0, 0, 0, 255]));
    {
        let mut c = img.as_canvas();
        c.fill(Rgba([255, 255, 255, 128]));
        assert!(c.try_get_color([1, 1]) == Some(Rgba([128, 128, 128, 255])));
        assert!(c.try_get_color([2, 0]).is_none());
        c.clear(Rgba([9, 9, 9, 9]));
        c.fill_rect_using(ColorBlendOverwrite, [-5, -5], [6, 6], Rgba([7, 7, 7, 7]));
        assert!(c.try_set_color([1, 0], Rgba([1, 1, 1, 1])));
        assert!(!c.try_set_color([-1, 0], Rgba([1, 1, 1, 1])));
    }
    assert!(img.get([0u32, 0u32]) == Rgba([7, 7, 7, 7]));
    assert!(img.get([1u32, 0u32]) == Rgba([1, 1, 1, 1]));
    assert!(img.get([1u32, 1u32]) == Rgba([9, 9, 9, 9]));
}

#[test]
fn image_access_and_sub_image() {
    let raw: Vec<u8> = (0..24).collect();
    let img = Image::from_raw_rgba_bytes([3, 2], &raw);
    assert!(img.get(4usize) == Rgba([16, 17, 18, 19]));
    assert!(img.try_get([3i32, 0]).is_none());
    assert!(img.try_get(-1isize).is_none());
    let sub = img.sub_image([1u32, 0u32], [2, 2]);
    assert!(sub.get([0u32, 1u32]) == Rgba([16, 17, 18, 19]));
    let mut tall = img.clone();
    tall.set_height(3);
    assert_eq!(tall.dim(), [3, 3]);
    assert!(tall.get([2u32, 2u32]) == Rgba([0, 0, 0, 0]));
}

#[test]
fn rect_geometry() {
    let r = Rect::new([1, 2], [3, 4]);
    assert_eq!(r.end_pos(), [4, 6]);
    assert!(r.contains([1, 2]) && !r.contains([4, 2]));
    assert!(r.with_delta_width(-5).is_empty());
    assert!(r.with_iheight(-1) == Rect::new([1, 2], [3, 0]));
    assert!(r.with_delta_pos([1, 1]) == Rect::new([2, 3], [3, 4]));
}
