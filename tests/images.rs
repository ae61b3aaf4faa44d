use cookcore::images::{
    check_recipe_images, image_extension, indexes_of, parse_index, recipe_images, Image, RecipeImageError,
};

fn paths(v: &[&str]) -> Vec<String> {
    v.iter().map(|s| s.to_string()).collect()
}

#[test]
fn soup_images_sorted() {
    let siblings = paths(&["dir/Soup.1.3.gif", "dir/Other.jpg", "dir/Soup.2.png", "dir/Soup.cook", "dir/Soup.jpg"]);
    let images = recipe_images("dir/Soup.cook", &siblings);
    assert_eq!(images.len(), 3);
    assert_eq!(images[0].indexes, None);
    assert_eq!(images[0].path, "dir/Soup.jpg");
    assert_eq!(images[1].indexes, Some((0, 2)));
    assert_eq!(images[1].path, "dir/Soup.2.png");
    assert_eq!(images[2].indexes, Some((1, 3)));
    assert_eq!(images[2].path, "dir/Soup.1.3.gif");
}

#[test]
fn ties_broken_by_path() {
    let siblings = paths(&["d/Soup.webp", "d/Soup.jpeg", "d/Soup.0.heic", "d/Soup.0.gif"]);
    let images = recipe_images("d/Soup.cook", &siblings);
    let got: Vec<&str> = images.iter().map(|i| i.path.as_str()).collect();
    assert_eq!(got, vec!["d/Soup.jpeg", "d/Soup.webp", "d/Soup.0.gif", "d/Soup.0.heic"]);
}

#[test]
fn names_that_do_not_bind() {
    assert_eq!(indexes_of("Soup", "Soup"), None);
    assert_eq!(indexes_of("Soup", "Soup.txt"), None);
    assert_eq!(indexes_of("Soup", "Soup.JPG"), None);
    assert_eq!(indexes_of("Soup", "Soup.x.jpg"), None);
    assert_eq!(indexes_of("Soup", "Soup.1.x.jpg"), None);
    assert_eq!(indexes_of("Soup", "Soups.jpg"), None);
    assert_eq!(indexes_of("Soup", "Other.1.2.png"), None);
    assert_eq!(indexes_of("Soup", "A.Soup.1.2.png"), None);
}

#[test]
fn names_that_bind() {
    assert_eq!(indexes_of("Soup", "Soup.png"), Some(None));
    assert_eq!(indexes_of("Soup", "Soup.7.png"), Some(Some((0, 7))));
    assert_eq!(indexes_of("Soup", "Soup.+7.png"), Some(Some((0, 7))));
    assert_eq!(indexes_of("Soup", "Soup.2.10.webp"), Some(Some((2, 10))));
    assert_eq!(indexes_of("Soup.x", "Soup.x.1.2.png"), Some(Some((1, 2))));
}

#[test]
fn recipe_name_is_before_first_dot() {
    let images = recipe_images("a/b/Soup.old.cook", &paths(&["a/b/Soup.jpg", "a/b/Soup.old.jpg"]));
    assert_eq!(images.len(), 1);
    assert_eq!(images[0].path, "a/b/Soup.jpg");
}

#[test]
fn extensions() {
    for e in ["jpeg", "jpg", "png", "heic", "gif", "webp"] {
        assert!(image_extension(e));
    }
    assert!(!image_extension("Jpg"));
    assert!(!image_extension("bmp"));
    assert!(!image_extension(""));
}

fn img(ix: Option<(usize, usize)>, p: &str) -> Image {
    Image { indexes: ix, path: p.to_string() }
}

#[test]
fn missing_step() {
    let r = check_recipe_images(&[img(Some((0, 5)), "S.0.5.jpg")], &vec![3, 1]);
    let errs = r.err().unwrap();
    assert_eq!(errs.len(), 1);
    assert!(matches!(&errs[0], RecipeImageError::MissingStep { section: 0, step: 5, image } if image == "S.0.5.jpg"));
}

#[test]
fn missing_section() {
    let r = check_recipe_images(&[img(Some((9, 0)), "S.9.0.jpg")], &vec![3, 1]);
    let errs = r.err().unwrap();
    assert_eq!(errs.len(), 1);
    assert!(matches!(&errs[0], RecipeImageError::MissingSection { section: 9, image } if image == "S.9.0.jpg"));
}

#[test]
fn all_errors_in_input_order() {
    let images = [
        img(Some((9, 0)), "a"),
        img(None, "b"),
        img(Some((0, 2)), "c"),
        img(Some((0, 5)), "d"),
    ];
    let errs = check_recipe_images(&images, &vec![3, 1]).err().unwrap();
    assert_eq!(errs.len(), 2);
    assert!(matches!(&errs[0], RecipeImageError::MissingSection { section: 9, .. }));
    assert!(matches!(&errs[1], RecipeImageError::MissingStep { section: 0, step: 5, .. }));
}

#[test]
fn valid_images_pass() {
    let images = [img(None, "a"), img(Some((1, 0)), "b"), img(Some((0, 2)), "c")];
    assert!(check_recipe_images(&images, &vec![3, 1]).is_ok());
    assert!(check_recipe_images(&[], &vec![]).is_ok());
}

#[test]
fn index_parsing_matches_std() {
    for s in ["", "+", "+5", "007", "18446744073709551615", "18446744073709551616", "-1", "1a", "++1", " 1", "99999999999999999999"] {
        assert_eq!(parse_index(s), s.parse::<usize>().ok(), "{s}");
    }
    assert_eq!(parse_index("42"), Some(42));
}
