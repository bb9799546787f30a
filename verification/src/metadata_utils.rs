//! Planning the writing of a timestamp into a media file.
//!
//! The writing itself is done by outside programs.  This module decides
//! what is to be run and in which order: how the type of a file is told
//! from the answer of the type probe, whether a file is to be patched at
//! all, which arguments each run of the tag editor gets, and what follows
//! from its success or failure.

use crate::file_utils::{
    extension_of, extension_or_empty, get_extension, has_file_name, lemma_extension_round_trip,
    replace_extension, with_extension,
};
use crate::text::{contains, contains_text, same_text, trim, trimmed};
use vstd::prelude::*;
use vstd::string::*;

verus! {

/// The name under which a media type is known here, told from its MIME
/// type; `unknown` for every MIME type that is not listed.
pub open spec fn media_type_of(mime: Seq<char>) -> Seq<char> {
    if mime == "image/jpeg"@ {
        "jpg"@
    } else if mime == "image/png"@ {
        "png"@
    } else if mime == "image/gif"@ {
        "gif"@
    } else if mime == "image/heic"@ {
        "heic"@
    } else if mime == "image/tiff"@ {
        "tiff"@
    } else if mime == "image/webp"@ {
        "webp"@
    } else if mime == "video/mp4"@ {
        "mp4"@
    } else if mime == "video/quicktime"@ {
        "mov"@
    } else {
        "unknown"@
    }
}

/// Whether files of the media type `media_type` can be patched.
pub open spec fn is_supported_type(media_type: Seq<char>) -> bool {
    media_type == "jpg"@ || media_type == "jpeg"@ || media_type == "png"@ || media_type == "gif"@
        || media_type == "heic"@ || media_type == "tiff"@ || media_type == "tif"@ || media_type
        == "webp"@ || media_type == "mp4"@ || media_type == "mov"@
}

/// Whether `path` has the extension of an Apple edit sidecar, `AAE` or
/// `aae`.
pub open spec fn is_apple_edit(path: Seq<char>) -> bool {
    extension_of(path) == Some("AAE"@) || extension_of(path) == Some("aae"@)
}

/// What is to be done with a media file.
#[derive(Clone, Debug, PartialEq, Eq)]
pub enum PatchPlan {
    /// Rename the file to `working_path`, write the tags there, and rename
    /// it to `restored_path`.
    Patch { working_path: String, restored_path: String },
    /// Leave the file alone.
    Skip,
    /// The file is of a type that cannot be patched.
    Unsupported,
}

/// The mathematical value of a `PatchPlan`.
pub enum Plan {
    Patch { working_path: Seq<char>, restored_path: Seq<char> },
    Skip,
    Unsupported,
}

impl View for PatchPlan {
    type V = Plan;

    open spec fn view(&self) -> Plan {
        match *self {
            PatchPlan::Patch { working_path, restored_path } => Plan::Patch {
                working_path: working_path@,
                restored_path: restored_path@,
            },
            PatchPlan::Skip => Plan::Skip,
            PatchPlan::Unsupported => Plan::Unsupported,
        }
    }
}

/// The plan for the file at `path` whose content is of type `media_type`.
///
/// A file of a supported type is patched under the extension of its true
/// type and then given its own extension back.  A file of unknown type is
/// left alone when it is an Apple edit sidecar.  Everything else cannot be
/// patched.
pub open spec fn plan_for(path: Seq<char>, media_type: Seq<char>) -> Plan {
    if is_supported_type(media_type) {
        let working_path = with_extension(path, media_type);
        Plan::Patch {
            working_path,
            restored_path: with_extension(working_path, extension_or_empty(path)),
        }
    } else if media_type == "unknown"@ && is_apple_edit(path) {
        Plan::Skip
    } else {
        Plan::Unsupported
    }
}

/// The stages of writing the date and time tags into one file.
#[derive(Clone, Copy, Debug, PartialEq, Eq)]
pub enum TagStage {
    /// Write the tags.
    AddTags,
    /// Export all metadata of the file to an XML file beside it.
    ExportMetadata,
    /// Delete all metadata of the file.
    ClearMetadata,
    /// Copy the exported metadata back into the file.
    RestoreMetadata,
    /// Write the tags once more.
    RetryTags,
}

/// Where the writing of the tags stands after a stage.
#[derive(Clone, Copy, Debug, PartialEq, Eq)]
pub enum TagProgress {
    /// Run the tag editor for this stage next.
    Continue { stage: TagStage },
    /// The tags are written.
    Succeeded,
    /// The tags could not be written, even after the metadata was rebuilt.
    Failed,
}

/// What follows the stage `stage`, given whether the tag editor reported
/// success.
///
/// Writing the tags ends the work when it succeeds.  When the first
/// attempt fails, the metadata of the file is exported, deleted and copied
/// back, each step following the one before whatever it reported, and the
/// tags are written once more; that second attempt decides.
pub open spec fn progress_after(stage: TagStage, succeeded: bool) -> TagProgress {
    match stage {
        TagStage::AddTags => if succeeded {
            TagProgress::Succeeded
        } else {
            TagProgress::Continue { stage: TagStage::ExportMetadata }
        },
        TagStage::ExportMetadata => TagProgress::Continue { stage: TagStage::ClearMetadata },
        TagStage::ClearMetadata => TagProgress::Continue { stage: TagStage::RestoreMetadata },
        TagStage::RestoreMetadata => TagProgress::Continue { stage: TagStage::RetryTags },
        TagStage::RetryTags => if succeeded {
            TagProgress::Succeeded
        } else {
            TagProgress::Failed
        },
    }
}

/// The arguments of the tag editor for the stage `stage` of writing the
/// timestamp `value` into the file at `file_path`.
pub open spec fn tag_arguments_of(stage: TagStage, file_path: Seq<char>, value: Seq<char>) -> Seq<
    Seq<char>,
> {
    let xml = with_extension(file_path, "xml"@);
    match stage {
        TagStage::AddTags | TagStage::RetryTags => seq![
            "-DateTimeOriginal="@ + value,
            "-CreateDate="@ + value,
            "-ignoreMinorErrors"@,
            "-overwrite_original"@,
            "-preserve"@,
            file_path,
        ],
        TagStage::ExportMetadata => seq!["-ignoreMinorErrors"@, "-X"@, file_path, "-o"@, xml],
        TagStage::ClearMetadata => seq![
            "-all="@,
            "-ignoreMinorErrors"@,
            "-overwrite_original"@,
            "-preserve"@,
            file_path,
        ],
        TagStage::RestoreMetadata => seq![
            "-ignoreMinorErrors"@,
            "-overwrite_original"@,
            "-preserve"@,
            "-tagsfromfile"@,
            xml,
            file_path,
        ],
    }
}

/// The arguments of the tag editor that list the date and time tags of the
/// file at `file_path`.
pub open spec fn tag_query_arguments_of(file_path: Seq<char>) -> Seq<Seq<char>> {
    seq!["-DateTimeOriginal"@, "-CreateDate"@, "-s"@, file_path]
}

/// The arguments of the tag editor that set the file times of the file at
/// `image_path` from its creation tags.
pub open spec fn sync_arguments_of(image_path: Seq<char>) -> Seq<Seq<char>> {
    seq![
        "-filemodifydate<createdate"@,
        "-filecreatedate<createdate"@,
        "-filemodifydate<datetimeoriginal"@,
        "-filecreatedate<datetimeoriginal"@,
        "-overwrite_original"@,
        image_path,
    ]
}

/// The arguments of the type probe for the file at `file_path`.
pub open spec fn type_probe_arguments_of(file_path: Seq<char>) -> Seq<Seq<char>> {
    seq!["--mime-type"@, "-b"@, file_path]
}

/// Whether the listing printed by the tag query names one of the two date
/// and time tags.
pub open spec fn lists_date_time_tag(listing: Seq<char>) -> bool {
    contains_text(listing, "DateTimeOriginal"@) || contains_text(listing, "CreateDate"@)
}

/// The name of a supported type is not empty and holds neither a dot nor
/// a separator.
pub proof fn lemma_supported_type_is_plain(media_type: Seq<char>)
    requires
        is_supported_type(media_type),
    ensures
        media_type.len() > 0,
        !media_type.contains('.'),
        !media_type.contains('/'),
{
    reveal_strlit("jpg");
    reveal_strlit("jpeg");
    reveal_strlit("png");
    reveal_strlit("gif");
    reveal_strlit("heic");
    reveal_strlit("tiff");
    reveal_strlit("tif");
    reveal_strlit("webp");
    reveal_strlit("mp4");
    reveal_strlit("mov");
    assert forall|k: int| 0 <= k < media_type.len() implies media_type[k] != '.' && media_type[k]
        != '/' by {
        assert(0 <= k < 4);
    }
}

/// A file that is patched has its own path back in the end: the plan for
/// a file of a supported type restores the path it started from.  This
/// holds of every path with a file name whose extension, where it has one,
/// is not empty.
pub proof fn lemma_patched_file_gets_its_path_back(path: Seq<char>, media_type: Seq<char>)
    requires
        is_supported_type(media_type),
        has_file_name(path),
        extension_of(path) != Some(Seq::<char>::empty()),
    ensures
        plan_for(path, media_type) == (Plan::Patch {
            working_path: with_extension(path, media_type),
            restored_path: path,
        }),
{
    lemma_supported_type_is_plain(media_type);
    lemma_extension_round_trip(path, media_type);
}

/// The media type of a file, told from what the type probe printed: the
/// MIME type is what is left of `probe_output` without the white space at
/// its two ends.
pub fn get_media_file_type(probe_output: &str) -> (media_type: String)
    ensures
        media_type@ == media_type_of(trimmed(probe_output@)),
{
    String::from_str(media_type_from_mime(trim(probe_output)))
}

/// The name under which a media type is known here, told from its MIME
/// type.
pub fn media_type_from_mime(mime: &str) -> (media_type: &'static str)
    ensures
        media_type@ == media_type_of(mime@),
{
    if same_text(mime, "image/jpeg") {
        "jpg"
    } else if same_text(mime, "image/png") {
        "png"
    } else if same_text(mime, "image/gif") {
        "gif"
    } else if same_text(mime, "image/heic") {
        "heic"
    } else if same_text(mime, "image/tiff") {
        "tiff"
    } else if same_text(mime, "image/webp") {
        "webp"
    } else if same_text(mime, "video/mp4") {
        "mp4"
    } else if same_text(mime, "video/quicktime") {
        "mov"
    } else {
        "unknown"
    }
}

/// Tests whether files of the media type `media_type` can be patched.
pub fn is_supported_media_type(media_type: &str) -> (supported: bool)
    ensures
        supported == is_supported_type(media_type@),
{
    same_text(media_type, "jpg") || same_text(media_type, "jpeg") || same_text(media_type, "png")
        || same_text(media_type, "gif") || same_text(media_type, "heic") || same_text(
        media_type,
        "tiff",
    ) || same_text(media_type, "tif") || same_text(media_type, "webp") || same_text(
        media_type,
        "mp4",
    ) || same_text(media_type, "mov")
}

/// The extension of `file_path`, or the empty text when it has none.
pub fn get_original_extension(file_path: &str) -> (extension: String)
    ensures
        extension@ == extension_or_empty(file_path@),
{
    match get_extension(file_path) {
        Some(extension) => String::from_str(extension),
        None => String::new(),
    }
}

/// The path of the XML file that holds the exported metadata of the file
/// at `file_path`: the same path with the extension `xml`.
pub fn generate_metadata_xml_name(file_path: &str) -> (name: String)
    ensures
        name@ == with_extension(file_path@, "xml"@),
{
    replace_extension(file_path, "xml")
}

/// Decides what is to be done with the file at `image_file_path`, whose
/// content the type probe found to be of type `media_type`.
pub fn plan_metadata_patch(image_file_path: &str, media_type: &str) -> (plan: PatchPlan)
    ensures
        plan@ == plan_for(image_file_path@, media_type@),
{
    if is_supported_media_type(media_type) {
        let original_extension = get_original_extension(image_file_path);
        let working_path = replace_extension(image_file_path, media_type);
        let restored_path = replace_extension(working_path.as_str(), original_extension.as_str());
        PatchPlan::Patch { working_path, restored_path }
    } else if same_text(media_type, "unknown") {
        match get_extension(image_file_path) {
            Some(extension) => {
                if same_text(extension, "AAE") || same_text(extension, "aae") {
                    PatchPlan::Skip
                } else {
                    PatchPlan::Unsupported
                }
            },
            None => PatchPlan::Unsupported,
        }
    } else {
        PatchPlan::Unsupported
    }
}

/// What follows the stage `stage`, given whether the tag editor reported
/// success.
pub fn next_tag_stage(stage: TagStage, succeeded: bool) -> (progress: TagProgress)
    ensures
        progress == progress_after(stage, succeeded),
{
    match stage {
        TagStage::AddTags => if succeeded {
            TagProgress::Succeeded
        } else {
            TagProgress::Continue { stage: TagStage::ExportMetadata }
        },
        TagStage::ExportMetadata => TagProgress::Continue { stage: TagStage::ClearMetadata },
        TagStage::ClearMetadata => TagProgress::Continue { stage: TagStage::RestoreMetadata },
        TagStage::RestoreMetadata => TagProgress::Continue { stage: TagStage::RetryTags },
        TagStage::RetryTags => if succeeded {
            TagProgress::Succeeded
        } else {
            TagProgress::Failed
        },
    }
}

/// The arguments of the tag editor for the stage `stage` of writing the
/// timestamp `value` into the file at `file_path`.
pub fn tag_arguments(stage: TagStage, file_path: &str, value: &str) -> (arguments: Vec<String>)
    ensures
        arguments.deep_view() == tag_arguments_of(stage, file_path@, value@),
{
    let mut arguments: Vec<String> = Vec::new();
    match stage {
        TagStage::AddTags | TagStage::RetryTags => {
            let mut original = String::from_str("-DateTimeOriginal=");
            original.append(value);
            let mut created = String::from_str("-CreateDate=");
            created.append(value);
            arguments.push(original);
            arguments.push(created);
            arguments.push(String::from_str("-ignoreMinorErrors"));
            arguments.push(String::from_str("-overwrite_original"));
            arguments.push(String::from_str("-preserve"));
            arguments.push(String::from_str(file_path));
        },
        TagStage::ExportMetadata => {
            arguments.push(String::from_str("-ignoreMinorErrors"));
            arguments.push(String::from_str("-X"));
            arguments.push(String::from_str(file_path));
            arguments.push(String::from_str("-o"));
            arguments.push(generate_metadata_xml_name(file_path));
        },
        TagStage::ClearMetadata => {
            arguments.push(String::from_str("-all="));
            arguments.push(String::from_str("-ignoreMinorErrors"));
            arguments.push(String::from_str("-overwrite_original"));
            arguments.push(String::from_str("-preserve"));
            arguments.push(String::from_str(file_path));
        },
        TagStage::RestoreMetadata => {
            arguments.push(String::from_str("-ignoreMinorErrors"));
            arguments.push(String::from_str("-overwrite_original"));
            arguments.push(String::from_str("-preserve"));
            arguments.push(String::from_str("-tagsfromfile"));
            arguments.push(generate_metadata_xml_name(file_path));
            arguments.push(String::from_str(file_path));
        },
    }
    assert(arguments.deep_view() =~= tag_arguments_of(stage, file_path@, value@));
    arguments
}

/// The arguments of the tag editor that list the date and time tags of the
/// file at `file_path`.
pub fn tag_query_arguments(file_path: &str) -> (arguments: Vec<String>)
    ensures
        arguments.deep_view() == tag_query_arguments_of(file_path@),
{
    let mut arguments: Vec<String> = Vec::new();
    arguments.push(String::from_str("-DateTimeOriginal"));
    arguments.push(String::from_str("-CreateDate"));
    arguments.push(String::from_str("-s"));
    arguments.push(String::from_str(file_path));
    assert(arguments.deep_view() =~= tag_query_arguments_of(file_path@));
    arguments
}

/// The arguments of the tag editor that set the file times of the file at
/// `image_path` from its creation tags.
pub fn sync_arguments(image_path: &str) -> (arguments: Vec<String>)
    ensures
        arguments.deep_view() == sync_arguments_of(image_path@),
{
    let mut arguments: Vec<String> = Vec::new();
    arguments.push(String::from_str("-filemodifydate<createdate"));
    arguments.push(String::from_str("-filecreatedate<createdate"));
    arguments.push(String::from_str("-filemodifydate<datetimeoriginal"));
    arguments.push(String::from_str("-filecreatedate<datetimeoriginal"));
    arguments.push(String::from_str("-overwrite_original"));
    arguments.push(String::from_str(image_path));
    assert(arguments.deep_view() =~= sync_arguments_of(image_path@));
    arguments
}

/// The arguments of the type probe for the file at `file_path`.
pub fn type_probe_arguments(file_path: &str) -> (arguments: Vec<String>)
    ensures
        arguments.deep_view() == type_probe_arguments_of(file_path@),
{
    let mut arguments: Vec<String> = Vec::new();
    arguments.push(String::from_str("--mime-type"));
    arguments.push(String::from_str("-b"));
    arguments.push(String::from_str(file_path));
    assert(arguments.deep_view() =~= type_probe_arguments_of(file_path@));
    arguments
}

/// Tests whether the listing printed by the tag query names one of the
/// two date and time tags.  A file that has one is not patched again.
pub fn has_date_time_tags(listing: &str) -> (tagged: bool)
    ensures
        tagged == lists_date_time_tag(listing@),
{
    contains(listing, "DateTimeOriginal") || contains(listing, "CreateDate")
}

} // verus!
