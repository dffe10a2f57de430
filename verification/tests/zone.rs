use template_match::{candidate_origins_of, ConfigError, Image, SearchZone};

fn blank(width: u32, height: u32) -> Image {
    Image::new(width, height, vec![0; width as usize * height as usize * 4])
        .expect("the buffer holds one pixel per coordinate")
}

#[test]
fn whole_source_admits_every_window_that_fits() {
    let source = blank(5, 4);
    let template = blank(2, 2);
    let origins = candidate_origins_of(&source, &template, SearchZone::covering(&source));
    assert_eq!(
        origins,
        vec![
            (0, 0), (1, 0), (2, 0), (3, 0),
            (0, 1), (1, 1), (2, 1), (3, 1),
            (0, 2), (1, 2), (2, 2), (3, 2),
        ]
    );
}

#[test]
fn zone_restricts_the_origins() {
    let source = blank(10, 10);
    let template = blank(2, 3);
    let origins = candidate_origins_of(&source, &template, SearchZone::new(4, 5, 3, 4));
    assert_eq!(origins, vec![(4, 5), (5, 5), (4, 6), (5, 6)]);
}

#[test]
fn zone_that_leaves_the_source_admits_only_windows_within_it() {
    let source = blank(6, 6);
    let template = blank(2, 2);
    let origins = candidate_origins_of(&source, &template, SearchZone::new(3, 4, 6, 6));
    assert_eq!(origins, vec![(3, 4), (4, 4)]);
}

#[test]
fn zone_beside_the_source_admits_nothing() {
    let source = blank(6, 6);
    let template = blank(2, 2);
    assert!(candidate_origins_of(&source, &template, SearchZone::new(6, 0, 3, 3)).is_empty());
    assert!(candidate_origins_of(&source, &template, SearchZone::new(0, 5, 3, 3)).is_empty());
    assert!(candidate_origins_of(
        &source,
        &template,
        SearchZone::new(u32::MAX, u32::MAX, 6, 6)
    )
    .is_empty());
}

#[test]
fn zone_smaller_than_the_template_admits_nothing() {
    let source = blank(10, 10);
    let template = blank(4, 4);
    assert!(candidate_origins_of(&source, &template, SearchZone::new(0, 0, 3, 10)).is_empty());
    assert!(candidate_origins_of(&source, &template, SearchZone::new(0, 0, 10, 3)).is_empty());
    assert!(candidate_origins_of(&source, &template, SearchZone::new(2, 2, 0, 0)).is_empty());
}

#[test]
fn zone_of_the_template_size_admits_one_origin() {
    let source = blank(10, 10);
    let template = blank(4, 3);
    let origins = candidate_origins_of(&source, &template, SearchZone::new(6, 7, 4, 3));
    assert_eq!(origins, vec![(6, 7)]);
}

#[test]
fn template_larger_than_the_source_has_no_origin() {
    let source = blank(3, 3);
    let template = blank(4, 2);
    assert!(candidate_origins_of(&source, &template, SearchZone::covering(&source)).is_empty());
}

#[test]
fn template_without_pixels_is_admitted_up_to_the_far_edge() {
    let source = blank(2, 1);
    let template = blank(0, 0);
    let origins = candidate_origins_of(&source, &template, SearchZone::covering(&source));
    assert_eq!(origins, vec![(0, 0), (1, 0), (2, 0), (0, 1), (1, 1), (2, 1)]);
}

#[test]
fn covering_zone_has_the_size_of_the_source() {
    let source = blank(7, 9);
    assert_eq!(
        SearchZone::covering(&source),
        SearchZone { left: 0, top: 0, width: 7, height: 9 }
    );
    assert_eq!(SearchZone::new(1, 2, 3, 4), SearchZone { left: 1, top: 2, width: 3, height: 4 });
}

#[test]
fn zone_no_larger_than_the_source_is_accepted() {
    let source = blank(7, 9);
    assert_eq!(SearchZone::new(0, 0, 7, 9).validate(&source), Ok(()));
    assert_eq!(SearchZone::new(100, 100, 7, 9).validate(&source), Ok(()));
    assert_eq!(SearchZone::new(0, 0, 0, 0).validate(&source), Ok(()));
}

#[test]
fn zone_wider_than_the_source_is_an_error() {
    let source = blank(7, 9);
    assert_eq!(
        SearchZone::new(0, 0, 8, 9).validate(&source),
        Err(ConfigError::ZoneWiderThanSource { zone_width: 8, source_width: 7 })
    );
}

#[test]
fn zone_taller_than_the_source_is_an_error() {
    let source = blank(7, 9);
    assert_eq!(
        SearchZone::new(0, 0, 7, 10).validate(&source),
        Err(ConfigError::ZoneTallerThanSource { zone_height: 10, source_height: 9 })
    );
}

#[test]
fn width_is_judged_before_height() {
    let source = blank(7, 9);
    assert_eq!(
        SearchZone::new(0, 0, 20, 20).validate(&source),
        Err(ConfigError::ZoneWiderThanSource { zone_width: 20, source_width: 7 })
    );
}
