use template_match::{parse_template_name, strip_png, PERCENTAGE, TOLERANCE};

/// The parameters of a name, its fields split and read with the standard
/// library.
fn by_std(name: &str) -> (String, u8, usize) {
    let parts: Vec<&str> = name.split('_').collect();
    if parts.len() >= 3 {
        (
            parts[0].to_string(),
            parts[1].parse().unwrap_or(30),
            parts[2].parse().unwrap_or(25),
        )
    } else {
        (name.to_string(), 30, 25)
    }
}

fn parsed(name: &str) -> (String, u8, usize) {
    let params = parse_template_name(name);
    (params.label, params.tolerance, params.percentage)
}

#[test]
fn defaults_are_thirty_and_twenty_five() {
    assert_eq!(TOLERANCE, 30);
    assert_eq!(PERCENTAGE, 25);
}

#[test]
fn name_with_three_fields_gives_its_parameters() {
    assert_eq!(parsed("button_10_5"), (String::from("button"), 10, 5));
    assert_eq!(parsed("ok_0_0"), (String::from("ok"), 0, 0));
    assert_eq!(parsed("x_255_100"), (String::from("x"), 255, 100));
}

#[test]
fn name_with_fewer_fields_gives_the_defaults() {
    assert_eq!(parsed("button"), (String::from("button"), 30, 25));
    assert_eq!(parsed("button_10"), (String::from("button_10"), 30, 25));
    assert_eq!(parsed(""), (String::new(), 30, 25));
    assert_eq!(parsed("_"), (String::from("_"), 30, 25));
}

#[test]
fn name_with_fewer_fields_is_its_own_label() {
    assert_eq!(parse_template_name("button").label, "button");
    assert_eq!(parse_template_name("big button").label, "big button");
    assert_eq!(parse_template_name("button_7").label, "button_7");
    assert_eq!(parse_template_name("bouton_é").label, "bouton_é");
    assert_eq!(parse_template_name("button_7_9").label, "button");
}

#[test]
fn field_that_is_no_number_gives_its_default() {
    assert_eq!(parsed("a_x_7"), (String::from("a"), 30, 7));
    assert_eq!(parsed("a_7_x"), (String::from("a"), 7, 25));
    assert_eq!(parsed("a__"), (String::from("a"), 30, 25));
    assert_eq!(parsed("a_ 7_9"), (String::from("a"), 30, 9));
    assert_eq!(parsed("a_7 _9"), (String::from("a"), 30, 9));
    assert_eq!(parsed("a_-7_9"), (String::from("a"), 30, 9));
    assert_eq!(parsed("a_7.5_9"), (String::from("a"), 30, 9));
    assert_eq!(parsed("a_+_9"), (String::from("a"), 30, 9));
    assert_eq!(parsed("a_++7_9"), (String::from("a"), 30, 9));
    assert_eq!(parsed("a_7_9.png"), (String::from("a"), 7, 25));
}

#[test]
fn number_out_of_range_gives_its_default() {
    assert_eq!(parsed("a_256_9"), (String::from("a"), 30, 9));
    assert_eq!(parsed("a_300_9"), (String::from("a"), 30, 9));
    assert_eq!(parsed("a_99999999999999999999999999_9"), (String::from("a"), 30, 9));
    assert_eq!(parsed("a_9_99999999999999999999999999"), (String::from("a"), 9, 25));
    assert_eq!(parsed("a_9_340282366920938463463374607431768211456"), (String::from("a"), 9, 25));
}

#[test]
fn largest_numbers_are_read() {
    assert_eq!(parsed("a_255_9").1, 255);
    let name = format!("a_9_{}", usize::MAX);
    assert_eq!(parsed(&name).2, usize::MAX);
    assert_eq!(parsed("a_9_150").2, 150);
}

#[test]
fn sign_and_leading_zeros_are_read() {
    assert_eq!(parsed("a_+7_+9"), (String::from("a"), 7, 9));
    assert_eq!(parsed("a_007_0150"), (String::from("a"), 7, 150));
    assert_eq!(parsed("a_000000000000000000000000000000255_+0"), (String::from("a"), 255, 0));
}

#[test]
fn fields_behind_the_third_are_ignored() {
    assert_eq!(parsed("a_7_9_extra"), (String::from("a"), 7, 9));
    assert_eq!(parsed("a_7_9_"), (String::from("a"), 7, 9));
    assert_eq!(parsed("a_7_9_1_2_3"), (String::from("a"), 7, 9));
}

#[test]
fn label_may_be_empty_or_beyond_ascii() {
    assert_eq!(parsed("_1_2"), (String::new(), 1, 2));
    assert_eq!(parsed("__"), (String::new(), 30, 25));
    assert_eq!(parsed("naïve_1_2"), (String::from("naïve"), 1, 2));
    assert_eq!(parsed("按钮_12_34"), (String::from("按钮"), 12, 34));
    assert_eq!(parsed("a_١٢_34"), (String::from("a"), 30, 34));
}

#[test]
fn names_are_read_as_the_standard_library_reads_them() {
    let names = [
        "", "_", "__", "___", "a", "a_", "a_b", "a_b_c", "a_1_2", "a_1_2_3", "_1_2", "a__2",
        "a_1_", "a_+1_+2", "a_-1_2", "a_1_-2", "a_01_002", "a_255_0", "a_256_0", "a_1000_1000",
        "a_+_+", "a_1+_2", "a_1_2+", "a_ 1_2", "a_1_ 2", "a_1_2 ", "a_0x10_2", "a_1e2_2",
        "icon_30_25", "icon_30_25.png", "x_18446744073709551615_18446744073709551615",
        "x_1_18446744073709551616", "x_1_18446744073709551615", "é_1_2", "a_é_2", "a_1_é",
        "a_b_c_d_e", "long label with spaces_12_13", "a_1_2_", "a_00_00",
    ];
    for name in names {
        assert_eq!(parsed(name), by_std(name));
    }
}

#[test]
fn png_is_taken_out_of_a_file_name() {
    assert_eq!(strip_png("button_10_5.png"), "button_10_5");
    assert_eq!(strip_png("button.png"), "button");
    assert_eq!(strip_png("button"), "button");
    assert_eq!(strip_png(".png"), "");
    assert_eq!(strip_png(""), "");
}

#[test]
fn every_png_is_taken_out() {
    assert_eq!(strip_png("a.png.png"), "a");
    assert_eq!(strip_png("a.pngb.png"), "ab");
    assert_eq!(strip_png(".pnga.png_1_2"), "a_1_2");
}

#[test]
fn what_is_not_png_stays() {
    assert_eq!(strip_png("a.PNG"), "a.PNG");
    assert_eq!(strip_png("a.pn"), "a.pn");
    assert_eq!(strip_png("a.jpg"), "a.jpg");
    assert_eq!(strip_png("a..png"), "a.");
    assert_eq!(strip_png(".p.png.ng"), ".p.ng");
    assert_eq!(strip_png("naïve.png"), "naïve");
}

#[test]
fn png_is_taken_out_as_the_standard_library_does() {
    let names = [
        "", ".", ".p", ".pn", ".png", ".pngg", "..png", ".png.", ".p.png", ".pn.png", ".png.png",
        "a.png", "a.pngb", "a.png.pngb.png", "png", "a.PNG", ".pn.pngg", "é.pngé", ".p.pn.png.ng",
        "button_10_5.png", "...png...",
    ];
    for name in names {
        assert_eq!(strip_png(name), name.replace(".png", ""));
    }
}
