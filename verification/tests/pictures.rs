use upscale::images::{
    assemble, center_crop, encodable, finish, prepare, shrink, Encodable, Picture, Scaled,
};

fn picture(width: u32, height: u32) -> Picture {
    let rgba = (0..width * height * 4).map(|i| (i % 251) as u8).collect();
    Picture { rgba, width, height }
}

/// A picture that was resampled.
fn done(scaled: Scaled) -> Picture {
    match scaled {
        Scaled::Done(p) => p,
        Scaled::Open(..) => panic!("left open"),
    }
}

fn at(p: &Picture, x: u32, y: u32) -> [u8; 4] {
    let i = ((y * p.width + x) * 4) as usize;
    [p.rgba[i], p.rgba[i + 1], p.rgba[i + 2], p.rgba[i + 3]]
}

#[test]
fn a_crop_is_the_middle() {
    let part = center_crop(picture(7, 5), 2);
    assert_eq!((part.width, part.height, part.rgba.len()), (2, 2, 16));
    let whole = picture(7, 5);
    for y in 0..2 {
        for x in 0..2 {
            assert_eq!(at(&part, x, y), at(&whole, x + 2, y + 1));
        }
    }
}

#[test]
fn a_large_crop_keeps_everything() {
    let part = center_crop(picture(3, 2), 10);
    assert_eq!(part.rgba, picture(3, 2).rgba);
    let part = center_crop(picture(9, 2), 4);
    assert_eq!((part.width, part.height), (4, 2));
    assert_eq!(at(&part, 0, 1), at(&picture(9, 2), 2, 1));
}

#[test]
fn shrinking_resamples_each_side() {
    let half = done(shrink(picture(8, 6), &|n: u32| n / 2));
    assert_eq!((half.width, half.height, half.rgba.len()), (4, 3, 48));
    let flat = Picture { rgba: vec![77; 8 * 8 * 4], width: 8, height: 8 };
    let less = done(shrink(flat, &|_: u32| 3));
    assert_eq!(less.rgba, vec![77; 36]);
}

#[test]
fn shrinking_to_the_same_size_changes_nothing() {
    assert_eq!(done(shrink(picture(5, 4), &|n: u32| n)).rgba, picture(5, 4).rgba);
}

#[test]
fn nothing_is_resampled_to_blank() {
    let empty = Picture { rgba: Vec::new(), width: 0, height: 3 };
    assert_eq!(done(shrink(empty, &|_: u32| 2)).rgba, vec![0; 16]);
}

#[test]
fn a_side_too_large_to_resample_can_be_kept() {
    let wide = || Picture { rgba: vec![3; 4 * 0x100_0001], width: 0x100_0001, height: 1 };
    assert_eq!(done(shrink(wide(), &|n: u32| n)).rgba, wide().rgba);
    match shrink(wide(), &|n: u32| n - n / 2) {
        Scaled::Open(p, width, height) => {
            assert_eq!((p.rgba == wide().rgba, p.width, p.height), (true, 0x100_0001, 1));
            assert_eq!((width, height), (0x80_0001, 1));
        }
        Scaled::Done(_) => panic!("resampled"),
    }
    let empty = Picture { rgba: Vec::new(), width: 0x200_0000, height: 0 };
    assert_eq!(done(shrink(empty, &|n: u32| n.min(2))).width, 2);
}

#[test]
fn a_picture_without_rows_has_a_width_still() {
    let flat = assemble(Vec::new(), 1 << 29, 0).unwrap();
    assert_eq!((flat.width, flat.height), (1 << 29, 0));
    let part = center_crop(flat, 5);
    assert_eq!((part.width, part.height, part.rgba.len()), (5, 0, 0));
    // One row of such a picture would have more bytes than can be counted.
    let widest = usize::MAX / 4;
    let wide = assemble(Vec::new(), widest.saturating_add(1), 0);
    assert!(wide.is_none());
}

#[test]
fn too_large_a_size_is_left_open() {
    let open = |scaled: Scaled| match scaled {
        Scaled::Open(p, width, height) => (p.rgba, width, height),
        Scaled::Done(_) => panic!("resampled"),
    };
    let want = |side: u32| (picture(2, 2).rgba, side, side);
    assert_eq!(open(shrink(picture(2, 2), &|_: u32| 0x100_0001)), want(0x100_0001));
    let most = &|_: u32| u32::MAX;
    assert_eq!(open(prepare(picture(2, 2), None, true, most)), want(u32::MAX));
    assert_eq!(open(finish(picture(2, 2).rgba, 2, 2, true, most).unwrap()), want(u32::MAX));
}

#[test]
fn preparing_crops_and_then_shrinks() {
    let plain = done(prepare(picture(9, 8), None, false, &|_: u32| 1));
    assert_eq!(plain.rgba, picture(9, 8).rgba);
    let small = done(prepare(picture(9, 8), Some(6), true, &|n: u32| n / 3));
    assert_eq!((small.width, small.height), (2, 2));
    let cut = done(prepare(picture(9, 8), Some(6), false, &|n: u32| n / 3));
    assert_eq!(at(&cut, 0, 0), at(&picture(9, 8), 1, 1));
}

#[test]
fn finishing_assembles_and_then_shrinks() {
    let last = done(finish(picture(4, 4).rgba, 4, 4, false, &|_: u32| 1).unwrap());
    assert_eq!((last.width, last.height), (4, 4));
    let last = done(finish(picture(4, 4).rgba, 4, 4, true, &|n: u32| n / 2).unwrap());
    assert_eq!((last.width, last.height, last.rgba.len()), (2, 2, 16));
    assert!(finish(vec![0; 15], 2, 2, false, &|n: u32| n).is_none());
}

#[test]
fn surplus_bytes_are_dropped() {
    assert_eq!(assemble(vec![1; 20], 2, 2).unwrap().rgba, vec![1; 16]);
    assert!(assemble(vec![1; 15], 2, 2).is_none());
    assert!(assemble(Vec::new(), usize::MAX, 0).is_none());
}

#[test]
fn jpeg_has_no_alpha() {
    for ext in ["jpg", "JPEG", "jFif"] {
        match encodable(picture(2, 1), Some(ext)) {
            Encodable::Rgb(rgb, w, h) => {
                assert_eq!((rgb, w, h), (vec![0, 1, 2, 4, 5, 6], 2, 1));
            }
            Encodable::Rgba(_) => panic!("{ext} kept its alpha"),
        }
    }
    for ext in [Some("png"), Some("jpg2"), Some(""), None] {
        match encodable(picture(2, 1), ext) {
            Encodable::Rgba(p) => assert_eq!(p.rgba, picture(2, 1).rgba),
            Encodable::Rgb(..) => panic!("lost its alpha"),
        }
    }
}
