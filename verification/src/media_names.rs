//! Names of files as they are shown and entered, and names that are made from
//! the dates of files.
use crate::datetime::{self, format_datetime, parse_datetime, Moment, DISPLAY_DATETIME_FORMAT};
use crate::file_path::{self, is_file_name, name_with_extension, FilePath,
    FilenameCollisionResolver, PathModel};
use crate::media::{self, is_jpeg_path, is_png_path};
use crate::names::{self, file_extension, file_stem};
use crate::paths::{self, path_file_name};
use crate::text::{self, same_text, to_lower, trimmed};
use vstd::prelude::*;

verus! {

/// A name as it is shown: without its extension, if that is wanted.
pub open spec fn shown_name(
    name: Option<Seq<char>>,
    fallback: Seq<char>,
    is_dir: bool,
    show_extension: bool,
) -> Seq<char> {
    if is_dir || show_extension {
        fallback
    } else {
        match name {
            Some(n) => if names::stem(n).len() > 0 {
                names::stem(n)
            } else {
                fallback
            },
            None => fallback,
        }
    }
}

pub fn display_file_name(
    name: Option<&str>,
    fallback: &str,
    is_dir: bool,
    show_extension: bool,
) -> (r: String)
    ensures
        r@ == shown_name(
            match name {
                Some(n) => Some(n@),
                None => None,
            },
            fallback@,
            is_dir,
            show_extension,
        ),
{
    if is_dir || show_extension {
        return fallback.to_owned();
    }
    match name {
        Some(n) => {
            let stem = file_stem(n);
            if stem.as_str().unicode_len() > 0 {
                stem
            } else {
                fallback.to_owned()
            }
        },
        None => fallback.to_owned(),
    }
}

/// What a file is renamed to when a name is entered: the extension stays, and
/// may be left out.
pub open spec fn entered_name(
    current: Seq<char>,
    is_file: bool,
    requested: Seq<char>,
    windows: bool,
) -> Seq<char> {
    match names::extension(current) {
        Some(e) => if !is_file || e.len() == 0 {
            requested
        } else {
            let named = paths::last_name(requested, windows);
            let stem = match named {
                Some(n) => match names::extension(n) {
                    Some(x) => if text::lower(x) == text::lower(e) {
                        names::stem(n)
                    } else {
                        requested
                    },
                    None => requested,
                },
                None => requested,
            };
            stem + seq!['.'] + e
        },
        None => requested,
    }
}

pub fn rename_name_preserving_extension(
    current_name: &str,
    is_file: bool,
    requested_name: &str,
    windows: bool,
) -> (r: String)
    ensures
        r@ == entered_name(current_name@, is_file, requested_name@, windows),
{
    let extension = match file_extension(current_name) {
        Some(e) => e,
        None => {
            return requested_name.to_owned();
        },
    };
    if !is_file || extension.as_str().unicode_len() == 0 {
        return requested_name.to_owned();
    }
    let mut stem = requested_name.to_owned();
    match path_file_name(requested_name, windows) {
        Some(n) => match file_extension(n.as_str()) {
            Some(x) => {
                if same_text(
                    to_lower(x.as_str()).as_str(),
                    to_lower(extension.as_str()).as_str(),
                ) {
                    stem = file_stem(n.as_str());
                }
            },
            None => {},
        },
        None => {},
    }
    let ghost s = stem@;
    stem.push('.');
    stem.append(extension.as_str());
    assert(stem@ =~= s + seq!['.'] + extension@);
    stem
}

// Names from dates.

/// The name that a file gets from its date.
pub open spec fn dated_path(current: PathModel, m: Moment) -> PathModel {
    PathModel {
        folder: current.folder,
        name: file_path::with_extension(
            datetime::compact_text(m),
            if file_path::names_a_file(current.name) {
                names::extension(current.name)
            } else {
                None
            },
        ),
    }
}

/// The outcome of naming a file by its date.
pub open spec fn dated_name(
    names_left: file_path::Names,
    current: PathModel,
    moment: Option<Moment>,
    show_extension: bool,
) -> Result<Seq<char>, Seq<char>> {
    match moment {
        None => Err("The selected file does not have a usable Media Date."@),
        Some(m) => if current.folder is None {
            Err("Selected file parent could not be resolved."@)
        } else {
            match file_path::resolved(names_left, dated_path(current, m)) {
                Err(e) => Err(e),
                Ok(p) => Ok(
                    if show_extension {
                        p.name
                    } else {
                        names::stem(p.name)
                    },
                ),
            }
        },
    }
}

/// What the resolver reserved for it.
pub open spec fn reserved_for(
    names_left: file_path::Names,
    current: PathModel,
    moment: Option<Moment>,
) -> Set<Seq<char>> {
    match moment {
        Some(m) => if current.folder is Some {
            file_path::reserved_after(
                names_left,
                file_path::resolved(names_left, dated_path(current, m)),
            )
        } else {
            names_left.reserved
        },
        None => names_left.reserved,
    }
}

pub open spec fn text_result(r: Result<String, String>) -> Result<Seq<char>, Seq<char>> {
    match r {
        Ok(t) => Ok(t@),
        Err(e) => Err(e@),
    }
}

/// The name that a file gets from a date that was read.
pub fn filename_from_moment(
    current_path: &FilePath,
    moment: Option<Moment>,
    show_extension: bool,
    collision_resolver: &mut FilenameCollisionResolver,
    existing: &[String],
) -> (r: Result<String, String>)
    requires
        moment matches Some(m) ==> datetime::valid_moment(m),
    ensures
        text_result(r) == dated_name(
            old(collision_resolver).names(existing@, Some(current_path@.text())),
            current_path@,
            moment,
            show_extension,
        ),
        final(collision_resolver).windows == old(collision_resolver).windows,
        final(collision_resolver).reserved_keys() == reserved_for(
            old(collision_resolver).names(existing@, Some(current_path@.text())),
            current_path@,
            moment,
        ),
{
    let m = match moment {
        Some(m) => m,
        None => {
            return Err("The selected file does not have a usable Media Date.".to_owned());
        },
    };
    let folder = match &current_path.folder {
        Some(f) => f.as_str(),
        None => {
            return Err("Selected file parent could not be resolved.".to_owned());
        },
    };
    let base = format_datetime(m, "%Y%m%d_%H%M%S");
    let name = current_path.name.as_str();
    let extension = if is_file_name(name) {
        file_extension(name)
    } else {
        None
    };
    let desired = FilePath::new(
        folder,
        name_with_extension(base.as_str(), &extension).as_str(),
    );
    assert(desired@ == dated_path(current_path@, m));
    let current = current_path.to_text();
    match collision_resolver.resolve_for_rename(&desired, current.as_str(), existing) {
        Err(e) => Err(e),
        Ok(p) => if show_extension {
            Ok(p.name)
        } else {
            Ok(file_stem(p.name.as_str()))
        },
    }
}

/// The name that a file gets from its date, when the names of a batch differ.
pub fn filename_from_media_date_with_reserved(
    current_path: &FilePath,
    media_date: &str,
    show_extension: bool,
    collision_resolver: &mut FilenameCollisionResolver,
    existing: &[String],
) -> (r: Result<String, String>)
    ensures
        ({
            let moment = datetime::parsed_datetime(
                text::trim(media_date@),
                DISPLAY_DATETIME_FORMAT@,
            );
            let names_left = old(collision_resolver).names(
                existing@,
                Some(current_path@.text()),
            );
            &&& text_result(r) == dated_name(names_left, current_path@, moment, show_extension)
            &&& final(collision_resolver).windows == old(collision_resolver).windows
            &&& final(collision_resolver).reserved_keys() == reserved_for(
                names_left,
                current_path@,
                moment,
            )
        }),
{
    filename_from_moment(
        current_path,
        parse_datetime(trimmed(media_date), DISPLAY_DATETIME_FORMAT),
        show_extension,
        collision_resolver,
        existing,
    )
}

/// The name that a single file gets from its date.
pub fn filename_from_media_date(
    current_path: &FilePath,
    media_date: &str,
    show_extension: bool,
    existing: &[String],
    windows: bool,
) -> (r: Result<String, String>)
    ensures
        text_result(r) == dated_name(
            file_path::Names {
                reserved: Set::empty(),
                existing: existing@,
                allowed: Some(current_path@.text()),
                windows,
            },
            current_path@,
            datetime::parsed_datetime(text::trim(media_date@), DISPLAY_DATETIME_FORMAT@),
            show_extension,
        ),
{
    let mut resolver = FilenameCollisionResolver::new(windows);
    filename_from_media_date_with_reserved(
        current_path,
        media_date,
        show_extension,
        &mut resolver,
        existing,
    )
}

// Taking metadata away.

/// How the metadata of a file are taken away.
#[derive(Clone, Copy, Debug, PartialEq, Eq, Structural)]
pub enum MetadataRemoval {
    PngDates,
    JpegExif,
}

pub fn remove_supported_metadata(name: &str) -> (r: Result<MetadataRemoval, String>)
    ensures
        match r {
            Ok(MetadataRemoval::PngDates) => media::png_name(name@),
            Ok(MetadataRemoval::JpegExif) => !media::png_name(name@) && media::jpeg_name(name@),
            Err(e) => !media::png_name(name@) && !media::jpeg_name(name@) && e@
                == "Metadata removal is supported for JPEG and PNG files only."@,
        },
{
    if is_png_path(name) {
        Ok(MetadataRemoval::PngDates)
    } else if is_jpeg_path(name) {
        Ok(MetadataRemoval::JpegExif)
    } else {
        Err("Metadata removal is supported for JPEG and PNG files only.".to_owned())
    }
}

} // verus!
