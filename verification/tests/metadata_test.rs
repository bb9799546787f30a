use google_photos_fix_metadata::metadata_utils::{
    generate_metadata_xml_name, get_media_file_type, get_original_extension, has_date_time_tags,
    is_supported_media_type, media_type_from_mime, next_tag_stage, plan_metadata_patch,
    sync_arguments, tag_arguments, tag_query_arguments, type_probe_arguments, PatchPlan,
    TagProgress, TagStage,
};

#[test]
fn media_type_of_each_known_mime_type() {
    assert_eq!(media_type_from_mime("image/jpeg"), "jpg");
    assert_eq!(media_type_from_mime("image/png"), "png");
    assert_eq!(media_type_from_mime("image/gif"), "gif");
    assert_eq!(media_type_from_mime("image/heic"), "heic");
    assert_eq!(media_type_from_mime("image/tiff"), "tiff");
    assert_eq!(media_type_from_mime("image/webp"), "webp");
    assert_eq!(media_type_from_mime("video/mp4"), "mp4");
    assert_eq!(media_type_from_mime("video/quicktime"), "mov");
}

#[test]
fn other_mime_types_are_unknown() {
    assert_eq!(media_type_from_mime("text/plain"), "unknown");
    assert_eq!(media_type_from_mime("image/JPEG"), "unknown");
    assert_eq!(media_type_from_mime("image/jpeg\n"), "unknown");
    assert_eq!(media_type_from_mime(""), "unknown");
}

#[test]
fn probe_output_is_trimmed() {
    assert_eq!(get_media_file_type("image/jpeg\n"), "jpg");
    assert_eq!(get_media_file_type("  video/quicktime \r\n"), "mov");
    assert_eq!(get_media_file_type("image/png"), "png");
    assert_eq!(get_media_file_type("application/octet-stream\n"), "unknown");
    assert_eq!(get_media_file_type(""), "unknown");
}

#[test]
fn supported_types() {
    for media_type in ["jpg", "jpeg", "png", "gif", "heic", "tiff", "tif", "webp", "mp4", "mov"] {
        assert!(is_supported_media_type(media_type));
    }
    for media_type in ["unknown", "JPG", "bmp", ""] {
        assert!(!is_supported_media_type(media_type));
    }
}

#[test]
fn original_extension_or_nothing() {
    assert_eq!(get_original_extension("a/photo.PNG"), "PNG");
    assert_eq!(get_original_extension("a/photo"), "");
    assert_eq!(get_original_extension("a/.hidden"), "");
}

#[test]
fn xml_name_replaces_the_extension() {
    assert_eq!(generate_metadata_xml_name("a/photo.jpg"), "a/photo.xml");
    assert_eq!(generate_metadata_xml_name("photo"), "photo.xml");
    assert_eq!(generate_metadata_xml_name("a.b/photo.tar.gz"), "a.b/photo.tar.xml");
}

#[test]
fn file_with_wrong_extension_is_patched_under_its_true_type() {
    assert_eq!(
        plan_metadata_patch("a/photo.png", "jpg"),
        PatchPlan::Patch {
            working_path: String::from("a/photo.jpg"),
            restored_path: String::from("a/photo.png"),
        }
    );
}

#[test]
fn file_with_right_extension_keeps_its_path() {
    assert_eq!(
        plan_metadata_patch("a/clip.mov", "mov"),
        PatchPlan::Patch {
            working_path: String::from("a/clip.mov"),
            restored_path: String::from("a/clip.mov"),
        }
    );
}

#[test]
fn file_without_extension_gets_one_while_patched() {
    assert_eq!(
        plan_metadata_patch("a/photo", "heic"),
        PatchPlan::Patch {
            working_path: String::from("a/photo.heic"),
            restored_path: String::from("a/photo"),
        }
    );
}

#[test]
fn apple_edit_sidecar_is_left_alone() {
    assert_eq!(plan_metadata_patch("a/IMG_0001.AAE", "unknown"), PatchPlan::Skip);
    assert_eq!(plan_metadata_patch("a/IMG_0001.aae", "unknown"), PatchPlan::Skip);
}

#[test]
fn other_unknown_files_cannot_be_patched() {
    assert_eq!(plan_metadata_patch("a/IMG_0001.Aae", "unknown"), PatchPlan::Unsupported);
    assert_eq!(plan_metadata_patch("a/notes.txt", "unknown"), PatchPlan::Unsupported);
    assert_eq!(plan_metadata_patch("a/notes", "unknown"), PatchPlan::Unsupported);
    assert_eq!(plan_metadata_patch("a/IMG_0001.AAE", "bmp"), PatchPlan::Unsupported);
    assert_eq!(plan_metadata_patch("a/photo.jpg", ""), PatchPlan::Unsupported);
}

#[test]
fn first_attempt_that_succeeds_ends_the_work() {
    assert_eq!(next_tag_stage(TagStage::AddTags, true), TagProgress::Succeeded);
}

#[test]
fn failed_first_attempt_rebuilds_the_metadata() {
    assert_eq!(
        next_tag_stage(TagStage::AddTags, false),
        TagProgress::Continue { stage: TagStage::ExportMetadata }
    );
    for succeeded in [true, false] {
        assert_eq!(
            next_tag_stage(TagStage::ExportMetadata, succeeded),
            TagProgress::Continue { stage: TagStage::ClearMetadata }
        );
        assert_eq!(
            next_tag_stage(TagStage::ClearMetadata, succeeded),
            TagProgress::Continue { stage: TagStage::RestoreMetadata }
        );
        assert_eq!(
            next_tag_stage(TagStage::RestoreMetadata, succeeded),
            TagProgress::Continue { stage: TagStage::RetryTags }
        );
    }
}

#[test]
fn second_attempt_decides() {
    assert_eq!(next_tag_stage(TagStage::RetryTags, true), TagProgress::Succeeded);
    assert_eq!(next_tag_stage(TagStage::RetryTags, false), TagProgress::Failed);
}

#[test]
fn arguments_for_writing_the_tags() {
    let expected = vec![
        "-DateTimeOriginal=2015:05:15 00:00:00.000+00:00",
        "-CreateDate=2015:05:15 00:00:00.000+00:00",
        "-ignoreMinorErrors",
        "-overwrite_original",
        "-preserve",
        "a/photo.jpg",
    ];
    assert_eq!(tag_arguments(TagStage::AddTags, "a/photo.jpg", "2015:05:15 00:00:00.000+00:00"), expected);
    assert_eq!(tag_arguments(TagStage::RetryTags, "a/photo.jpg", "2015:05:15 00:00:00.000+00:00"), expected);
}

#[test]
fn arguments_for_rebuilding_the_metadata() {
    assert_eq!(
        tag_arguments(TagStage::ExportMetadata, "a/photo.jpg", "v"),
        vec!["-ignoreMinorErrors", "-X", "a/photo.jpg", "-o", "a/photo.xml"]
    );
    assert_eq!(
        tag_arguments(TagStage::ClearMetadata, "a/photo.jpg", "v"),
        vec!["-all=", "-ignoreMinorErrors", "-overwrite_original", "-preserve", "a/photo.jpg"]
    );
    assert_eq!(
        tag_arguments(TagStage::RestoreMetadata, "a/photo.jpg", "v"),
        vec![
            "-ignoreMinorErrors",
            "-overwrite_original",
            "-preserve",
            "-tagsfromfile",
            "a/photo.xml",
            "a/photo.jpg",
        ]
    );
}

#[test]
fn arguments_for_the_other_runs() {
    assert_eq!(
        tag_query_arguments("a/photo.jpg"),
        vec!["-DateTimeOriginal", "-CreateDate", "-s", "a/photo.jpg"]
    );
    assert_eq!(
        sync_arguments("a/photo.jpg"),
        vec![
            "-filemodifydate<createdate",
            "-filecreatedate<createdate",
            "-filemodifydate<datetimeoriginal",
            "-filecreatedate<datetimeoriginal",
            "-overwrite_original",
            "a/photo.jpg",
        ]
    );
    assert_eq!(type_probe_arguments("a/photo.jpg"), vec!["--mime-type", "-b", "a/photo.jpg"]);
}

#[test]
fn listing_with_a_date_tag() {
    assert!(has_date_time_tags("DateTimeOriginal                : 2015:05:15 00:00:00\n"));
    assert!(has_date_time_tags("CreateDate                      : 2015:05:15 00:00:00\n"));
    assert!(has_date_time_tags("xCreateDatex"));
}

#[test]
fn listing_without_a_date_tag() {
    assert!(!has_date_time_tags(""));
    assert!(!has_date_time_tags("ModifyDate                      : 2015:05:15 00:00:00\n"));
    assert!(!has_date_time_tags("createdate"));
    assert!(!has_date_time_tags("DateTimeOrigina"));
}
