use template_match::{evaluate, mismatch_budget_of, Image};

fn uniform(width: u32, height: u32, color: [u8; 4]) -> Vec<u8> {
    let mut data = Vec::new();
    for _ in 0..(width as usize * height as usize) {
        data.extend_from_slice(&color);
    }
    data
}

fn set(data: &mut [u8], width: u32, x: u32, y: u32, color: [u8; 4]) {
    let start = (y as usize * width as usize + x as usize) * 4;
    data[start..start + 4].copy_from_slice(&color);
}

fn picture(width: u32, height: u32, data: Vec<u8>) -> Image {
    Image::new(width, height, data).expect("the buffer holds one pixel per coordinate")
}

#[test]
fn budget_is_the_percentage_rounded_down() {
    assert_eq!(mismatch_budget_of(100, 25), 25);
    assert_eq!(mismatch_budget_of(9, 25), 2);
    assert_eq!(mismatch_budget_of(400, 25), 100);
    assert_eq!(mismatch_budget_of(3, 33), 0);
    assert_eq!(mismatch_budget_of(3, 34), 1);
    assert_eq!(mismatch_budget_of(199, 50), 99);
}

#[test]
fn budget_at_the_ends_of_the_percentage_range() {
    assert_eq!(mismatch_budget_of(100, 0), 0);
    assert_eq!(mismatch_budget_of(0, 100), 0);
    assert_eq!(mismatch_budget_of(0, 0), 0);
    assert_eq!(mismatch_budget_of(37, 100), 37);
    assert_eq!(mismatch_budget_of(7, 150), 10);
}

#[test]
fn budget_of_the_largest_inputs_does_not_overflow() {
    let largest = usize::MAX as u128;
    assert_eq!(mismatch_budget_of(usize::MAX, usize::MAX), largest * largest / 100);
}

#[test]
fn window_passes_while_mismatches_stay_within_the_budget() {
    // The template differs from the window at (2, 1) in exactly 3 of 16 pixels.
    let source = picture(8, 6, uniform(8, 6, [50, 50, 50, 255]));
    let mut data = uniform(4, 4, [50, 50, 50, 255]);
    set(&mut data, 4, 0, 0, [200, 50, 50, 255]);
    set(&mut data, 4, 3, 1, [50, 200, 50, 255]);
    set(&mut data, 4, 2, 3, [50, 50, 200, 255]);
    let template = picture(4, 4, data);
    assert!(!evaluate(&source, &template, 2, 1, 0, 0));
    assert!(!evaluate(&source, &template, 2, 1, 0, 2));
    assert!(evaluate(&source, &template, 2, 1, 0, 3));
    assert!(evaluate(&source, &template, 2, 1, 0, 4));
    assert!(evaluate(&source, &template, 2, 1, 0, u128::MAX));
}

#[test]
fn tolerance_turns_mismatches_into_matches() {
    let source = picture(3, 3, uniform(3, 3, [100, 100, 100, 255]));
    let template = picture(2, 2, uniform(2, 2, [110, 95, 100, 255]));
    assert!(!evaluate(&source, &template, 1, 1, 9, 3));
    assert!(evaluate(&source, &template, 1, 1, 9, 4));
    assert!(evaluate(&source, &template, 1, 1, 10, 0));
}

#[test]
fn window_is_read_at_its_origin() {
    let mut data = uniform(5, 5, [0, 0, 0, 255]);
    set(&mut data, 5, 3, 2, [9, 9, 9, 255]);
    let source = picture(5, 5, data);
    let mut wanted = uniform(2, 2, [0, 0, 0, 255]);
    set(&mut wanted, 2, 1, 0, [9, 9, 9, 255]);
    let template = picture(2, 2, wanted);
    assert!(evaluate(&source, &template, 2, 2, 0, 0));
    assert!(!evaluate(&source, &template, 3, 2, 0, 0));
    assert!(!evaluate(&source, &template, 2, 1, 0, 0));
    assert!(!evaluate(&source, &template, 0, 0, 0, 0));
    assert!(evaluate(&source, &template, 0, 0, 0, 1));
}

#[test]
fn template_without_pixels_passes_everywhere() {
    let source = picture(2, 2, uniform(2, 2, [1, 2, 3, 4]));
    let template = picture(0, 0, Vec::new());
    assert!(evaluate(&source, &template, 0, 0, 0, 0));
    assert!(evaluate(&source, &template, 2, 2, 0, 0));
}
