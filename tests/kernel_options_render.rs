use artyst::{
    advisories, Advisory, braille_dims, check_combination, default_glyphs, get_kernels, glyph_list, glyphs_from_trimmed,
    grid_offsets, same_text, render_braille, render_text, DithType, KernelKind, Matrix,
    OptionConflict, ProgType, SegType, Weight, DEFAULT_CHARS_LEN,
};

#[test]
fn grid_offsets_are_relative_to_origin() {
    let grid = Matrix::from(vec![10, 11, 12, 13, 14, 15], 3, 2);
    let offsets = grid_offsets((1, 0), &grid);
    assert_eq!(
        offsets,
        vec![(-1, 0, 10), (0, 0, 11), (1, 0, 12), (-1, 1, 13), (0, 1, 14), (1, 1, 15)]
    );
}

#[test]
fn grid_offsets_of_an_empty_grid() {
    let grid: Matrix<u8> = Matrix::from(vec![], 0, 0);
    assert!(grid_offsets((0, 0), &grid).is_empty());
}

#[test]
fn floyd_steinberg_right_neighbour_gets_seven_sixteenths() {
    let k = KernelKind::FS.kernel();
    assert_eq!(k.origin, (1, 0));
    let offsets = grid_offsets(k.origin, &k.matrix);
    assert_eq!(offsets[2], (1, 0, Weight { num: 7, den: 16 }));
    assert_eq!(offsets[3], (-1, 1, Weight { num: 3, den: 16 }));
    assert_eq!(offsets[5], (1, 1, Weight { num: 1, den: 16 }));
}

#[test]
fn kernel_shapes_and_totals() {
    let total = |kind: KernelKind| {
        let k = kind.kernel();
        let mut sum = 0;
        let mut den = 1;
        for i in 0..k.matrix.get_height() {
            for j in 0..k.matrix.get_width() {
                let w = k.matrix.get(i, j).unwrap();
                sum += w.num;
                den = w.den;
            }
        }
        (k.matrix.get_width(), k.matrix.get_height(), k.origin, sum, den)
    };
    assert_eq!(total(KernelKind::NONE), (0, 0, (0, 0), 0, 1));
    assert_eq!(total(KernelKind::FS), (3, 2, (1, 0), 16, 16));
    assert_eq!(total(KernelKind::STUCKI), (5, 3, (2, 0), 42, 42));
    // Atkinson spreads only six eighths of the error
    assert_eq!(total(KernelKind::ATKINSON), (4, 3, (1, 0), 6, 8));
}

#[test]
fn kernel_origin_cell_has_no_weight() {
    for kind in get_kernels() {
        let k = kind.kernel();
        if k.matrix.get_width() > 0 {
            let (ox, oy) = k.origin;
            assert_eq!(k.matrix.get(oy as u32, ox as u32).unwrap().num, 0);
        }
    }
}

#[test]
fn kernel_registry_and_names() {
    let kinds = get_kernels();
    assert_eq!(kinds, vec![KernelKind::NONE, KernelKind::FS, KernelKind::STUCKI, KernelKind::ATKINSON]);
    let names: Vec<&str> = kinds.iter().map(|k| k.name()).collect();
    assert_eq!(names, vec!["NONE", "FS", "STUCKI", "ATKINSON"]);
}

#[test]
fn kernel_lookup_ignores_case() {
    assert_eq!(KernelKind::parse("fs"), Some(KernelKind::FS));
    assert_eq!(KernelKind::parse("Stucki"), Some(KernelKind::STUCKI));
    assert_eq!(KernelKind::parse("ATKINSON"), Some(KernelKind::ATKINSON));
    assert_eq!(KernelKind::parse("none"), Some(KernelKind::NONE));
    assert_eq!(KernelKind::parse(" fs \n"), Some(KernelKind::FS));
    assert_eq!(KernelKind::parse("floyd"), None);
    assert_eq!(KernelKind::parse(""), None);
}

#[test]
fn kernel_lookup_follows_unicode_case_mapping() {
    // long s upper-cases to S, dotless i to I, the Kelvin sign lower-cases to k
    assert_eq!(KernelKind::parse("\u{17F}tucki"), Some(KernelKind::STUCKI));
    assert_eq!(KernelKind::parse("stuck\u{131}"), Some(KernelKind::STUCKI));
    assert_eq!(KernelKind::parse("at\u{212A}inson"), Some(KernelKind::ATKINSON));
}

#[test]
fn kernel_lookup_by_exact_upper_case_name() {
    assert_eq!(KernelKind::from_upper("FS"), Some(KernelKind::FS));
    assert_eq!(KernelKind::from_upper("fs"), None);
}

#[test]
fn text_comparison() {
    assert!(same_text("txt", "txt"));
    assert!(!same_text("TxT", "txt"));
    assert!(!same_text("tx", "txt"));
    assert!(same_text("", ""));
}

#[test]
fn option_keywords() {
    assert_eq!(ProgType::parse("TXT"), Some(ProgType::TXT));
    assert_eq!(ProgType::parse(" braile "), Some(ProgType::BRAILE));
    assert_eq!(ProgType::parse("braille"), None);
    assert_eq!(SegType::parse("Resize"), Some(SegType::RESIZE));
    assert_eq!(SegType::parse("legacy"), Some(SegType::LEGACY));
    assert_eq!(SegType::parse("crop"), None);
    assert_eq!(DithType::parse("onoff"), Some(DithType::ONOFF));
    assert_eq!(DithType::parse("INTER"), Some(DithType::INTER));
    assert_eq!(DithType::parse("interpolating"), Some(DithType::INTER));
    assert_eq!(DithType::parse("interp"), None);
    assert_eq!(DithType::from_lower("INTER"), None);
    assert_eq!(DithType::from_lower("inter"), Some(DithType::INTER));
}

#[test]
fn option_defaults() {
    assert_eq!(
        check_combination(ProgType::TXT, None, None, false),
        Ok((DithType::INTER, SegType::LEGACY, vec![]))
    );
    assert_eq!(
        check_combination(ProgType::TXT, Some(DithType::ONOFF), Some(SegType::RESIZE), false),
        Ok((DithType::ONOFF, SegType::RESIZE, vec![]))
    );
    // Braille always dithers on/off on a resized image
    assert_eq!(
        check_combination(ProgType::BRAILE, None, None, false),
        Ok((DithType::ONOFF, SegType::RESIZE, vec![]))
    );
}

#[test]
fn braille_falls_back_with_warnings() {
    assert_eq!(
        check_combination(ProgType::BRAILE, Some(DithType::INTER), None, false),
        Ok((DithType::ONOFF, SegType::RESIZE, vec![Advisory::InterpolatingForBraille]))
    );
    assert_eq!(
        check_combination(ProgType::BRAILE, None, Some(SegType::LEGACY), false),
        Ok((DithType::ONOFF, SegType::RESIZE, vec![Advisory::LegacyForBraille]))
    );
    assert_eq!(
        check_combination(ProgType::BRAILE, Some(DithType::INTER), Some(SegType::LEGACY), true),
        Ok((
            DithType::ONOFF,
            SegType::RESIZE,
            vec![Advisory::InterpolatingForBraille, Advisory::LegacyForBraille]
        ))
    );
}

#[test]
fn option_conflicts() {
    assert_eq!(
        check_combination(ProgType::TXT, Some(DithType::ONOFF), None, true),
        Err(OptionConflict::PointsForOnOff)
    );
    assert_eq!(
        check_combination(ProgType::BRAILE, Some(DithType::ONOFF), Some(SegType::LEGACY), true),
        Err(OptionConflict::PointsForOnOff)
    );
    assert_eq!(
        check_combination(ProgType::TXT, Some(DithType::INTER), Some(SegType::LEGACY), true),
        Ok((DithType::INTER, SegType::LEGACY, vec![]))
    );
}

#[test]
fn braille_grid_sizes() {
    assert_eq!(braille_dims(4, 8), (4, 8));
    assert_eq!(braille_dims(5, 9), (6, 12));
    assert_eq!(braille_dims(2, 10), (2, 8));
    assert_eq!(braille_dims(1, 11), (2, 12));
    assert_eq!(braille_dims(0, 2), (0, 0));
}

#[test]
fn text_doubles_cells_and_clamps_levels() {
    let levels = Matrix::from(vec![-1i64, 0, 1, 2, 5, 1], 3, 2);
    let glyphs = vec![' ', '+', '#'];
    let text: String = render_text(&levels, &glyphs).into_iter().collect();
    // -1 and 0 take the first glyph, 5 is held to the last
    assert_eq!(text, "    ++\n####++\n");
}

#[test]
fn text_lines_per_row() {
    let levels = Matrix::from(vec![0i64, 1, 1, 0], 2, 2);
    let glyphs = vec!['.', '@'];
    let text: String = render_text(&levels, &glyphs).into_iter().collect();
    assert_eq!(text, "..@@\n@@..\n");
}

#[test]
fn text_of_empty_matrix() {
    let levels: Matrix<i64> = Matrix::from(vec![], 0, 3);
    let text: String = render_text(&levels, &vec!['x']).into_iter().collect();
    assert_eq!(text, "\n\n\n");
}

#[test]
fn braille_bits_follow_dot_layout() {
    // a 2 x 4 block: left column top to bottom is bits 0, 1, 2, 6; right
    // column is bits 3, 4, 5, 7
    let mut dots = Matrix::new(2, 4, false);
    dots.set(0, 0, true).unwrap();
    let text: String = render_braille(&dots).into_iter().collect();
    assert_eq!(text, "\u{2801}\n");

    let mut dots = Matrix::new(2, 4, false);
    dots.set(3, 0, true).unwrap();
    dots.set(0, 1, true).unwrap();
    let text: String = render_braille(&dots).into_iter().collect();
    assert_eq!(text, "\u{2848}\n");

    let dots = Matrix::new(2, 4, true);
    let text: String = render_braille(&dots).into_iter().collect();
    assert_eq!(text, "\u{28FF}\n");
}

#[test]
fn braille_blocks_and_lines() {
    // 4 x 8 dots: two characters a line, two lines; dots outside whole
    // blocks are left out
    let mut dots = Matrix::new(5, 9, false);
    dots.set(1, 2, true).unwrap();
    dots.set(8, 4, true).unwrap();
    let text: String = render_braille(&dots).into_iter().collect();
    assert_eq!(text, "\u{2800}\u{2802}\n\u{2800}\u{2800}\n");
}

#[test]
fn default_ramp() {
    let g = default_glyphs();
    assert_eq!(g.len(), DEFAULT_CHARS_LEN);
    assert_eq!(g[0], ' ');
    assert_eq!(g[20], '\\');
    assert_eq!(g[DEFAULT_CHARS_LEN - 1], '$');
}

#[test]
fn user_ramp_is_trimmed_and_keeps_leading_space() {
    assert_eq!(glyph_list(" .:-=+*#%@\n"), vec![' ', '.', ':', '-', '=', '+', '*', '#', '%', '@']);
    assert_eq!(glyph_list("ab\ncd\n\n"), vec!['a', 'b', 'c', 'd']);
    assert_eq!(glyph_list("\tab  "), vec!['a', 'b']);
    assert_eq!(glyph_list("   "), vec![' ']);
}

#[test]
fn ramp_from_trimmed_text() {
    assert_eq!(glyphs_from_trimmed(true, "x\ny"), vec![' ', 'x', 'y']);
    assert_eq!(glyphs_from_trimmed(false, "x\ny"), vec!['x', 'y']);
    assert_eq!(glyphs_from_trimmed(false, ""), Vec::<char>::new());
}

#[test]
fn advisories_for_interpolating() {
    assert_eq!(advisories(DithType::INTER, 5, Some(3), false), vec![Advisory::MoreGlyphsThanPoints]);
    assert_eq!(advisories(DithType::INTER, 3, Some(3), false), vec![]);
    assert_eq!(advisories(DithType::INTER, 39, None, true), vec![]);
}

#[test]
fn advisories_for_on_off() {
    assert_eq!(advisories(DithType::ONOFF, 2, None, true), vec![]);
    assert_eq!(
        advisories(DithType::ONOFF, 10, None, false),
        vec![Advisory::OnOffUsesEndGlyphs, Advisory::ThresholdAssumed]
    );
    assert_eq!(advisories(DithType::ONOFF, 2, None, false), vec![Advisory::ThresholdAssumed]);
}
