use std::path::Path;

use google_photos_fix_metadata::file_utils::{
    generate_random_string, generate_unique_path, get_extension, join_path_text, output_destination, replace_extension,
    split_path_components, unique_path_candidate,
};

fn split(path: &str) -> (String, String) {
    let components = split_path_components(path);
    (components.parent_path, components.file_name)
}

#[test]
fn split_at_the_last_separator() {
    assert_eq!(split("/home/user/photo.jpg"), (String::from("/home/user"), String::from("photo.jpg")));
    assert_eq!(split("./test/IMG.json"), (String::from("./test"), String::from("IMG.json")));
    assert_eq!(split("./IMG.json"), (String::from("."), String::from("IMG.json")));
    assert_eq!(split("a/b"), (String::from("a"), String::from("b")));
}

#[test]
fn split_without_a_directory() {
    assert_eq!(split("photo.jpg"), (String::new(), String::from("photo.jpg")));
    assert_eq!(split(""), (String::new(), String::new()));
}

#[test]
fn split_in_the_root() {
    assert_eq!(split("/photo.jpg"), (String::from("/"), String::from("photo.jpg")));
    assert_eq!(split("/"), (String::from("/"), String::new()));
}

#[test]
fn split_keeps_what_it_finds() {
    assert_eq!(split("a/b/"), (String::from("a/b"), String::new()));
    assert_eq!(split("a//b"), (String::from("a/"), String::from("b")));
    assert_eq!(split("a/.."), (String::from("a"), String::from("..")));
}

#[test]
fn join_puts_one_separator() {
    assert_eq!(join_path_text("/home", "x.jpg"), "/home/x.jpg");
    assert_eq!(join_path_text("/home/", "x.jpg"), "/home/x.jpg");
    assert_eq!(join_path_text("/", "x.jpg"), "/x.jpg");
    assert_eq!(join_path_text("", "x.jpg"), "x.jpg");
    assert_eq!(join_path_text(".", "x.jpg"), "./x.jpg");
    assert_eq!(join_path_text("a", ""), "a/");
}

#[test]
fn split_then_join_gives_the_path_back() {
    for path in ["/home/user/photo.jpg", "./a/b.json", "plain", "/root.txt", "a/b/", ""] {
        let (parent, name) = split(path);
        assert_eq!(join_path_text(&parent, &name), path);
    }
}

#[test]
fn extension_is_what_follows_the_last_dot() {
    assert_eq!(get_extension("photo.jpg"), Some("jpg"));
    assert_eq!(get_extension("/a/b.c/photo.tar.gz"), Some("gz"));
    assert_eq!(get_extension("IMG_0001.AAE"), Some("AAE"));
    assert_eq!(get_extension("trailing."), Some(""));
    assert_eq!(get_extension("..."), Some(""));
}

#[test]
fn extension_is_missing() {
    assert_eq!(get_extension("photo"), None);
    assert_eq!(get_extension(".hidden"), None);
    assert_eq!(get_extension("/a.b/photo"), None);
    assert_eq!(get_extension(""), None);
    assert_eq!(get_extension("."), None);
    assert_eq!(get_extension(".."), None);
    assert_eq!(get_extension("a.b/"), None);
}

#[test]
fn extension_is_replaced() {
    assert_eq!(replace_extension("photo.png", "jpg"), "photo.jpg");
    assert_eq!(replace_extension("/a/photo.tar.gz", "xml"), "/a/photo.tar.xml");
    assert_eq!(replace_extension("photo", "jpg"), "photo.jpg");
    assert_eq!(replace_extension(".hidden", "jpg"), ".hidden.jpg");
    assert_eq!(replace_extension("a.b/photo", "jpg"), "a.b/photo.jpg");
}

#[test]
fn extension_is_removed() {
    assert_eq!(replace_extension("photo.png", ""), "photo");
    assert_eq!(replace_extension("photo.", ""), "photo");
    assert_eq!(replace_extension("photo", ""), "photo");
}

#[test]
fn path_without_file_name_keeps_its_extension() {
    assert_eq!(replace_extension("", "jpg"), "");
    assert_eq!(replace_extension("a/", "jpg"), "a/");
    assert_eq!(replace_extension("a/.", "jpg"), "a/.");
    assert_eq!(replace_extension("..", "jpg"), "..");
}

#[test]
fn unique_candidate_keeps_stem_and_extension() {
    assert_eq!(unique_path_candidate("output/photo.jpg", "aB3dE9"), "output/photo-aB3dE9.jpg");
    assert_eq!(unique_path_candidate("photo.tar.gz", "000000"), "photo.tar-000000.gz");
    assert_eq!(unique_path_candidate("/photo.jpg", "x"), "/photo-x.jpg");
}

#[test]
fn unique_candidate_without_extension_ends_in_a_dot() {
    assert_eq!(unique_path_candidate("output/photo", "aB3dE9"), "output/photo-aB3dE9.");
    assert_eq!(unique_path_candidate(".hidden", "aB3dE9"), ".hidden-aB3dE9.");
}

#[test]
fn generated_candidate_has_six_random_letters_or_digits() {
    for _ in 0..50 {
        let candidate = generate_unique_path("output/photo.jpg");
        assert!(candidate.starts_with("output/photo-"));
        assert!(candidate.ends_with(".jpg"));
        let random = &candidate["output/photo-".len()..candidate.len() - ".jpg".len()];
        assert_eq!(random.chars().count(), 6);
        assert!(random.chars().all(|c| c.is_ascii_alphanumeric()));
        assert_eq!(unique_path_candidate("output/photo.jpg", random), candidate);
    }
}

#[test]
fn generated_candidates_differ() {
    let first = generate_unique_path("photo.jpg");
    let mut differs = false;
    for _ in 0..20 {
        if generate_unique_path("photo.jpg") != first {
            differs = true;
        }
    }
    assert!(differs);
}

#[test]
fn media_is_copied_under_its_own_name() {
    assert_eq!(output_destination("output", "/in/a/photo.jpg"), Some(String::from("output/photo.jpg")));
    assert_eq!(output_destination("output", "photo"), Some(String::from("output/photo")));
    assert_eq!(output_destination("output/", "a/clip.MP4"), Some(String::from("output/clip.MP4")));
    assert_eq!(output_destination("", "a/clip.mp4"), Some(String::from("clip.mp4")));
}

#[test]
fn sidecars_pages_metadata_and_archives_stay_behind() {
    assert_eq!(output_destination("output", "/in/photo.jpg.json"), None);
    assert_eq!(output_destination("output", "/in/archive_browser.html"), None);
    assert_eq!(output_destination("output", "/in/photo.xml"), None);
    assert_eq!(output_destination("output", "/in/takeout.zip"), None);
}

#[test]
fn extension_in_another_case_is_copied() {
    assert_eq!(output_destination("output", "/in/photo.JSON"), Some(String::from("output/photo.JSON")));
    assert_eq!(output_destination("output", "/in/page.Html"), Some(String::from("output/page.Html")));
}

#[test]
fn path_without_file_name_is_not_copied() {
    assert_eq!(output_destination("output", "/in/"), None);
    assert_eq!(output_destination("output", ""), None);
    assert_eq!(output_destination("output", "a/.."), None);
    assert_eq!(output_destination("output", "."), None);
}

#[test]
fn ordinary_paths_split_as_the_standard_library_splits_them() {
    for path in [
        "photo.jpg",
        "/photo.jpg",
        "./photo.jpg",
        "../a/photo.jpg",
        "/home/user/Google Photos/Photos from 2015/IMG_0894.JPG(1).json",
        "a/b.c/d",
        "a/.hidden",
        "a/archive.tar.gz",
        "a/trailing.",
        "a/...",
        "a/b..c",
    ] {
        let std_path = Path::new(path);
        let (parent, name) = split(path);
        assert_eq!(parent, std_path.parent().unwrap().to_str().unwrap(), "parent of {:?}", path);
        assert_eq!(name, std_path.file_name().unwrap().to_str().unwrap(), "name of {:?}", path);
        assert_eq!(
            get_extension(path),
            std_path.extension().map(|e| e.to_str().unwrap()),
            "extension of {:?}",
            path
        );
        for extension in ["", "xml", "jpg"] {
            assert_eq!(
                replace_extension(path, extension),
                std_path.with_extension(extension).to_str().unwrap(),
                "{:?} with extension {:?}",
                path,
                extension
            );
        }
        assert_eq!(
            join_path_text(&parent, "other.png"),
            std_path.with_file_name("other.png").to_str().unwrap(),
            "sibling of {:?}",
            path
        );
    }
}

#[test]
fn random_text_has_the_length_asked_for() {
    for length in [0, 1, 6, 64] {
        let text = generate_random_string(length);
        assert_eq!(text.chars().count(), length);
        assert!(text.chars().all(|c| c.is_ascii_alphanumeric()));
    }
}
