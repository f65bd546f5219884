use imgren::naming::{
    fill_placeholders, build_new_file_name, build_new_file_name_on, dotted_extension_of, file_extension,
    files_beyond_preview, is_image_extension, is_image_file_name, name_needs_change, planned_name,
    preview_names, resolve_target_name, suffixed_file_name, FormatConfig,
};

fn config(pattern: &str, prefix: &str, digits: usize, custom: bool) -> FormatConfig {
    FormatConfig {
        pattern: pattern.to_string(),
        prefix: prefix.to_string(),
        digits,
        custom_format: custom,
    }
}

#[test]
fn number_only_example() {
    assert_eq!(build_new_file_name_on("NumberOnly", "", 1, 3, ".jpg", "20240308"), "001.jpg");
    assert_eq!(build_new_file_name_on("NumberOnly", "", 2, 3, ".jpg", "20240308"), "002.jpg");
}

#[test]
fn prefix_number_example() {
    assert_eq!(build_new_file_name_on("PrefixNumber", "IMG", 1, 3, ".jpg", "x"), "IMG_001.jpg");
    assert_eq!(build_new_file_name_on("PrefixNumber", "IMG", 2, 3, ".jpg", "x"), "IMG_002.jpg");
}

#[test]
fn date_number_example() {
    assert_eq!(
        build_new_file_name_on("DateNumber", "20240308", 1, 3, ".jpg", "19990101"),
        "20240308_001.jpg"
    );
}

#[test]
fn original_number_example() {
    assert_eq!(build_new_file_name_on("OriginalNumber", "照片", 1, 3, ".jpg", "x"), "照片_001.jpg");
    assert_eq!(build_new_file_name_on("OriginalNumber", "照片", 2, 3, ".jpg", "x"), "照片_002.jpg");
}

#[test]
fn custom_pattern_example() {
    assert_eq!(
        build_new_file_name_on("旅行{D}_{N}", "", 1, 3, ".jpg", "20240308"),
        "旅行20240308_001.jpg"
    );
}

#[test]
fn custom_pattern_fills_every_placeholder() {
    assert_eq!(
        build_new_file_name_on("{P}-{N}-{D}-{N}", "trip", 12, 2, ".png", "20250101"),
        "trip-12-20250101-12.png"
    );
    assert_eq!(build_new_file_name_on("{E}{N}", "", 5, 2, ".gif", "d"), ".gif05.gif");
    assert_eq!(build_new_file_name_on("a{E}", "", 1, 3, ".png", "d"), "a.png.png");
}

#[test]
fn custom_pattern_puts_the_prefix_in_as_typed() {
    assert_eq!(build_new_file_name_on("{P}", "{D}", 1, 1, ".jpg", "20240308"), "{D}.jpg");
    assert_eq!(build_new_file_name_on("{P}", "{N}", 1, 1, ".jpg", "d"), "{N}.jpg");
    assert_eq!(build_new_file_name_on("{P}_{N}", "x{D}", 1, 3, ".jpg", "20240308"), "x{D}_001.jpg");
    assert_eq!(build_new_file_name_on("{{N}}", "", 7, 1, ".jpg", "d"), "{7}.jpg");
    assert_eq!(build_new_file_name_on("{N", "", 7, 1, ".jpg", "d"), "{N.jpg");
}

#[test]
fn custom_pattern_without_placeholders() {
    assert_eq!(build_new_file_name_on("holiday", "p", 9, 3, ".jpg", "d"), "holiday.jpg");
}

#[test]
fn today_fills_the_date_placeholder() {
    let name = build_new_file_name("{D}", "", 1, 3, ".jpg");
    let date = name.strip_suffix(".jpg").unwrap();
    assert!(date.len() >= 8);
    assert!(date.chars().skip(1).all(|c| c.is_ascii_digit()));
    let month: u32 = date[date.len() - 4..date.len() - 2].parse().unwrap();
    let day: u32 = date[date.len() - 2..].parse().unwrap();
    assert!((1..=12).contains(&month));
    assert!((1..=31).contains(&day));
    assert_eq!(date, chrono::Local::now().format("%Y%m%d").to_string());
}

#[test]
fn extension_follows_path_rules() {
    assert_eq!(file_extension("a.JPG"), Some("JPG".to_string()));
    assert_eq!(file_extension("a.b.c"), Some("c".to_string()));
    assert_eq!(file_extension(".a.b"), Some("b".to_string()));
    assert_eq!(file_extension("a."), Some("".to_string()));
    assert_eq!(file_extension(".bashrc"), None);
    assert_eq!(file_extension("noext"), None);
    assert_eq!(file_extension(".."), None);
    assert_eq!(file_extension("."), None);
    assert_eq!(file_extension(""), None);
}

#[test]
fn extension_matches_std_path() {
    for name in ["a.JPG", "x.tar.gz", ".hidden", "plain", "dot.", "..", "...", ".x.", "照片.Png"] {
        let expected = std::path::Path::new(name)
            .extension()
            .map(|e| e.to_str().unwrap().to_string());
        assert_eq!(file_extension(name), expected, "{}", name);
    }
}

#[test]
fn dotted_extension_lowercases() {
    assert_eq!(dotted_extension_of(Some("x.JPG"), "jpg"), ".jpg");
    assert_eq!(dotted_extension_of(Some("noext"), "jpg"), ".jpg");
    assert_eq!(dotted_extension_of(None, "jpg"), ".jpg");
    assert_eq!(dotted_extension_of(Some("noext"), ""), ".");
    assert_eq!(dotted_extension_of(Some("a.TiFF"), ""), ".tiff");
}

#[test]
fn image_extensions_are_recognised() {
    for e in [".jpg", ".jpeg", ".png", ".gif", ".webp", ".bmp", ".tiff", ".ico"] {
        assert!(is_image_extension(e));
    }
    for e in [".tif", ".JPG", "jpg", ".txt", ".", ""] {
        assert!(!is_image_extension(e));
    }
}

#[test]
fn image_files_are_selected_by_extension() {
    assert!(is_image_file_name(Some("photo.PNG")));
    assert!(is_image_file_name(Some("x.TIFF")));
    assert!(is_image_file_name(Some("a.b.jpeg")));
    assert!(!is_image_file_name(Some("doc.txt")));
    assert!(!is_image_file_name(Some("x.tif")));
    assert!(!is_image_file_name(Some(".png")));
    assert!(!is_image_file_name(Some("png")));
    assert!(!is_image_file_name(None));
}

#[test]
fn name_change_needed_only_on_conflict() {
    assert!(!name_needs_change(false, "001.jpg", Some("a.jpg")));
    assert!(!name_needs_change(true, "001.jpg", Some("001.jpg")));
    assert!(name_needs_change(true, "001.jpg", Some("a.jpg")));
    assert!(name_needs_change(true, "001.jpg", None));
    assert!(!name_needs_change(true, "unknown", None));
}

#[test]
fn suffixed_names() {
    assert_eq!(suffixed_file_name(Some("001"), 1234, ".jpg"), "001_1234.jpg");
    assert_eq!(suffixed_file_name(None, 9999, ".png"), "file_9999.png");
}

#[test]
fn resolve_keeps_free_names() {
    assert_eq!(resolve_target_name("001.jpg", Some("a.jpg"), false, ".jpg"), Some("001.jpg".to_string()));
    assert_eq!(resolve_target_name("001.jpg", Some("001.jpg"), true, ".jpg"), Some("001.jpg".to_string()));
}

#[test]
fn resolve_adds_random_suffix_on_conflict() {
    for _ in 0..50 {
        let got = resolve_target_name("IMG_001.jpg", Some("a.jpg"), true, ".jpg").unwrap();
        assert_ne!(got, "IMG_001.jpg");
        let middle = got.strip_prefix("IMG_001_").unwrap().strip_suffix(".jpg").unwrap();
        let n: u32 = middle.parse().unwrap();
        assert!((1000..10000).contains(&n));
    }
}

#[test]
fn resolve_uses_the_stem_of_the_last_component() {
    let got = resolve_target_name("dir/b.c.jpg", None, true, ".jpg").unwrap();
    assert!(got.starts_with("b.c_"));
    assert_eq!(got.len(), "b.c_".len() + 4 + ".jpg".len());
}

#[test]
fn planned_names_number_from_one() {
    let c = config("NumberOnly", "", 3, false);
    assert_eq!(planned_name(0, Some("a.PNG"), &c), "001.png");
    assert_eq!(planned_name(9, Some("b"), &c), "010.jpg");
    assert_eq!(planned_name(99, None, &c), "100.jpg");
    let p = config("PrefixNumber", "IMG", 2, false);
    assert_eq!(planned_name(4, Some("x.Gif"), &p), "IMG_05.gif");
}

#[test]
fn preview_shows_at_most_count() {
    let c = config("PrefixNumber", "IMG", 3, false);
    let names: Vec<Option<String>> = (0..7).map(|i| Some(format!("p{}.jpg", i))).collect();
    let shown = preview_names(&names, &c, 5);
    assert_eq!(shown.len(), 5);
    assert_eq!(shown[0], "IMG_001.jpg");
    assert_eq!(shown[4], "IMG_005.jpg");
    let two: Vec<Option<String>> = names[..2].to_vec();
    assert_eq!(preview_names(&two, &c, 5).len(), 2);
}

#[test]
fn files_beyond_preview_counts_the_rest() {
    assert_eq!(files_beyond_preview(7, 5), Some(2));
    assert_eq!(files_beyond_preview(5, 5), None);
    assert_eq!(files_beyond_preview(3, 5), None);
}

#[test]
fn builtin_patterns_give_distinct_names() {
    let c = config("NumberOnly", "", 1, false);
    let mut seen = std::collections::HashSet::new();
    for (i, name) in ["a.jpg", "b.PNG", "c", "d.jpeg"].iter().enumerate().cycle().take(40).enumerate() {
        let n = planned_name(i, Some(name.1), &c);
        assert!(seen.insert(n));
    }
}

#[test]
fn placeholders_are_filled_from_the_left() {
    assert_eq!(fill_placeholders("{N}{P}{D}{E}", "1", "p", "d", ".e"), "1pd.e");
    assert_eq!(fill_placeholders("{X}{n}", "1", "p", "d", ".e"), "{X}{n}");
    assert_eq!(fill_placeholders("}{N}{", "01", "", "", ""), "}01{");
}

#[test]
fn resolve_splits_plain_names_at_the_last_dot() {
    for (name, stem) in [("a.b.jpg", "a.b"), (".hidden", ".hidden"), ("x...", "x.."), ("plain", "plain"), ("a.", "a")] {
        let got = resolve_target_name(name, Some("other"), true, ".jpg").unwrap();
        let prefix = format!("{}_", stem);
        assert!(got.starts_with(&prefix), "{} -> {}", name, got);
        let n: u32 = got[prefix.len()..got.len() - 4].parse().unwrap();
        assert!((1000..10000).contains(&n));
        assert!(got.ends_with(".jpg"));
        assert_eq!(std::path::Path::new(name).file_stem().unwrap().to_str().unwrap(), stem);
    }
}

#[test]
fn builtin_names_sort_in_number_order() {
    let c = config("PrefixNumber", "IMG", 3, false);
    let names: Vec<String> = (0..999).map(|i| planned_name(i, Some("x.jpg"), &c)).collect();
    for w in names.windows(2) {
        assert!(w[0].as_bytes() < w[1].as_bytes());
    }
}

#[test]
fn resolve_uses_the_part_after_the_last_slash() {
    for (name, stem) in [("a//b.jpg", "b"), ("./x.y.png", "x.y"), ("d/e/.f", ".f")] {
        let got = resolve_target_name(name, None, true, ".jpg").unwrap();
        assert!(got.starts_with(&format!("{}_", stem)), "{} -> {}", name, got);
        assert_eq!(got.len(), stem.len() + 1 + 4 + 4);
    }
}
