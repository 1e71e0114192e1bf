use draw::{ColorBlendOverwrite, Image, ImageBlendOverwrite, Rect, Rgba, SubImageParams};

fn numbered(w: u32, h: u32) -> Image {
    let raw: Vec<u8> = (0..(w * h * 4)).map(|v| v as u8).collect();
    Image::from_raw_rgba_bytes([w, h], &raw)
}

#[test]
fn flips_mirror_rows_and_columns() {
    let mut img = numbered(3, 2);
    let orig = img.clone();
    img.flip_x();
    assert!(img.get([0u32, 0u32]) == orig.get([2u32, 0u32]));
    assert!(img.get([2u32, 1u32]) == orig.get([0u32, 1u32]));
    img.flip_y();
    assert!(img.get([0u32, 0u32]) == orig.get([2u32, 1u32]));
}

#[test]
fn rows_walk_a_rectangle() {
    let img = numbered(3, 3);
    let mut rows = img.rows_at([1u32, 1u32], [2, 2]);
    let r0 = rows.next().unwrap();
    assert!(r0[0] == img.get([1u32, 1u32]) && r0.len() == 2);
    let r1 = rows.next().unwrap();
    assert!(r1[1] == img.get([2u32, 2u32]));
    assert!(rows.next().is_none());
    let mut all = img.rows().with_pos();
    let (pos, row) = all.next().unwrap();
    assert_eq!(pos, [0, 0]);
    assert_eq!(row.len(), 3);
    assert_eq!(all.next().unwrap().0, [0, 1]);
}

#[test]
fn raw_bytes_and_mutable_access() {
    let mut img = numbered(2, 1);
    assert_eq!(img.raw_rgba_bytes(), (0..8).collect::<Vec<u8>>());
    *img.try_get_mut([1u32, 0u32]).unwrap() = Rgba([9, 9, 9, 9]);
    assert!(img.try_get_mut([2u32, 0u32]).is_none());
    img.buffer_mut()[0] = Rgba([7, 7, 7, 7]);
    *img.get_mut(0usize) = Rgba([6, 6, 6, 6]);
    assert!(img.get(0usize) == Rgba([6, 6, 6, 6]));
    assert!(img.get(1usize) == Rgba([9, 9, 9, 9]));
}

#[test]
fn tiles_follow_margins_and_spacing() {
    let params = SubImageParams::size([2, 2]).with_margin(1u32).with_spacing([0u32, 1u32]);
    let mut it = params.iter_for_dimensions([8, 6]);
    assert_eq!(it.next(), Some([1, 1]));
    assert_eq!(it.next(), Some([4, 1]));
    assert_eq!(it.next(), Some([1, 3]));
    assert_eq!(it.next(), Some([4, 3]));
    assert_eq!(it.next(), None);
    let img = numbered(8, 5);
    let b = img.sub_images([2, 2]).with_margin_left(3).with_spacing_vert(4);
    assert_eq!(b.params().margin_left, 3);
    assert_eq!(b.params().spacing_vert, 4);
    assert!(b.with_transform_for_3dgfx().params().transform_for_3dgfx);
}

#[test]
fn canvas_rows_and_sub_canvas() {
    let mut img = numbered(4, 4);
    let expected = img.get([2u32, 3u32]);
    let mut c = img.as_canvas();
    assert!(c.nth_row(3)[2] == expected);
    {
        let mut sub = c.sub_canvas([1, 1], [10, 2]).unwrap();
        assert_eq!(sub.pos(), [1, 1]);
        assert_eq!(sub.dim(), [3, 2]);
        sub.fill_using(ColorBlendOverwrite, Rgba([1, 1, 1, 1]));
    }
    assert!(c.sub_canvas_rect(Rect::new([10, 10], [2, 2])).is_none());
    assert!(c.try_get_color([3, 2]) == Some(Rgba([1, 1, 1, 1])));
    assert!(c.try_get_color([0, 1]) != Some(Rgba([1, 1, 1, 1])));
    let mut rows = c.rows_iter();
    assert_eq!(rows.next().unwrap().len(), 4);
    let inner = c.into_sub_canvas([2, 2], [1, 1]).unwrap();
    assert_eq!(inner.width(), 1);
    assert_eq!(inner.height(), 1);
}

#[test]
fn draw_image_and_outline() {
    let mut img = Image::new([4, 4]);
    let stamp = Image::new_with_color([2, 2], Rgba([5, 5, 5, 255]));
    {
        let mut c = img.as_canvas();
        c.draw_image_using(ImageBlendOverwrite, &stamp, [3, 3]);
        c.draw_rect([0, 0], [3, 3], Rgba([8, 8, 8, 255]));
    }
    assert!(img.get([3u32, 3u32]) == Rgba([5, 5, 5, 255]));
    assert!(img.get([2u32, 3u32]) == Rgba([0, 0, 0, 0]));
    assert!(img.get([0u32, 0u32]) == Rgba([8, 8, 8, 255]));
    assert!(img.get([2u32, 1u32]) == Rgba([8, 8, 8, 255]));
    assert!(img.get([1u32, 1u32]) == Rgba([0, 0, 0, 0]));
}

#[test]
fn rows_can_be_changed_in_place() {
    let mut img = numbered(3, 3);
    {
        let mut c = img.as_canvas();
        let mut sub = c.sub_canvas([1, 1], [2, 2]).unwrap();
        let row = sub.nth_row_mut(1);
        assert_eq!(row.len(), 2);
        row[0] = Rgba([1, 2, 3, 4]);
    }
    assert!(img.get([1u32, 2u32]) == Rgba([1, 2, 3, 4]));
}
