//! One member of a directory: its name, its kind and when it was last modified.

use crate::absolute_time::{absolute_text, has_text, human_readable_system_time, text_with};
use crate::relative_time::{get_relative_time, relative_time, TimeError};
use crate::timestamp::Timestamp;
use vstd::prelude::*;

verus! {

/// The category an entry is listed under.
#[derive(Clone, Copy, Debug, PartialEq, Eq, Structural)]
pub enum FileType {
    File,
    Directory,
    Symlink,
    Hidden,
    Dotfile,
}

/// One directory member, with the two renderings of its modification time.
#[derive(Debug)]
pub struct File {
    pub name: String,
    pub modified_time: Timestamp,
    pub absolute_time: String,
    pub relative_time: String,
    pub file_type: FileType,
    pub is_dir: bool,
    pub path: String,
}

/// What a `File` holds, as mathematical values.
pub struct FileView {
    pub name: Seq<char>,
    /// Nanoseconds since the epoch.
    pub modified_time: int,
    pub absolute_time: Seq<char>,
    pub relative_time: Seq<char>,
    pub file_type: FileType,
    pub is_dir: bool,
    pub path: Seq<char>,
}

impl View for File {
    type V = FileView;

    open spec fn view(&self) -> FileView {
        FileView {
            name: self.name@,
            modified_time: self.modified_time.spec_nanos(),
            absolute_time: self.absolute_time@,
            relative_time: self.relative_time@,
            file_type: self.file_type,
            is_dir: self.is_dir,
            path: self.path@,
        }
    }
}

/// The view of each entry of `files`.
pub open spec fn views(files: Seq<File>) -> Seq<FileView> {
    files.map_values(|file: File| file@)
}

/// Whether `name` begins with a dot.
pub open spec fn is_dot_name(name: Seq<char>) -> bool {
    name.len() > 0 && name[0] == '.'
}

/// The category of an entry called `name`. The first rule that applies decides:
/// a leading dot makes it hidden, whatever else it is; then a directory, then a
/// symbolic link; everything else is a regular file.
pub open spec fn classified(name: Seq<char>, is_dir: bool, is_symlink: bool) -> FileType {
    if is_dot_name(name) {
        FileType::Hidden
    } else if is_dir {
        FileType::Directory
    } else if is_symlink {
        FileType::Symlink
    } else {
        FileType::File
    }
}

/// Whether an entry is shown as a directory: it is one on disk, whatever it is
/// filed under, or it is filed under the directories.
pub open spec fn is_directory(file: FileView) -> bool {
    file.is_dir || file.file_type == FileType::Directory
}

/// Whether `file` is shown as a directory.
pub fn is_directory_entry(file: &File) -> (r: bool)
    ensures
        r == is_directory(file@),
{
    match file.file_type {
        FileType::Directory => true,
        _ => file.is_dir,
    }
}

/// Whether `name` begins with a dot.
pub fn starts_with_dot(name: &str) -> (r: bool)
    ensures
        r == is_dot_name(name@),
{
    !name.is_empty() && name.get_char(0) == '.'
}

/// Sorts an entry into its category.
pub fn classify(name: &str, is_dir: bool, is_symlink: bool) -> (kind: FileType)
    ensures
        kind == classified(name@, is_dir, is_symlink),
{
    if starts_with_dot(name) {
        FileType::Hidden
    } else if is_dir {
        FileType::Directory
    } else if is_symlink {
        FileType::Symlink
    } else {
        FileType::File
    }
}

/// Why a directory member is left out of the listing.
#[derive(Clone, Copy, Debug, PartialEq, Eq, Structural)]
pub enum EntryError {
    /// Its modification time has no relative time.
    Time(TimeError),
    /// Its modification time has no date.
    NoDate,
}

/// The text of a relative time, or its error.
pub open spec fn relative_text(relative: Result<String, TimeError>) -> Result<
    Seq<char>,
    TimeError,
> {
    match relative {
        Ok(phrase) => Ok(phrase@),
        Err(error) => Err(error),
    }
}

/// The entry for a directory member, given the two renderings of its
/// modification time: the member is left out where either is missing, and a
/// missing relative time is reported first.
pub open spec fn made_file(
    name: Seq<char>,
    path: Seq<char>,
    is_dir: bool,
    is_symlink: bool,
    modified_time: int,
    relative: Result<Seq<char>, TimeError>,
    absolute: Option<Seq<char>>,
) -> Result<FileView, EntryError> {
    match relative {
        Err(error) => Err(EntryError::Time(error)),
        Ok(relative_time) => match absolute {
            None => Err(EntryError::NoDate),
            Some(absolute_time) => Ok(
                FileView {
                    name,
                    modified_time,
                    absolute_time,
                    relative_time,
                    file_type: classified(name, is_dir, is_symlink),
                    is_dir,
                    path,
                },
            ),
        },
    }
}

/// Builds the entry for a directory member from what was read of it and the two
/// renderings of its modification time.
pub fn make_file(
    name: String,
    path: String,
    is_dir: bool,
    is_symlink: bool,
    modified_time: Timestamp,
    relative: Result<String, TimeError>,
    absolute: Option<String>,
) -> (made: Result<File, EntryError>)
    ensures
        made matches Ok(file) ==> made_file(
            name@,
            path@,
            is_dir,
            is_symlink,
            modified_time.spec_nanos(),
            relative_text(relative),
            absolute_text(absolute),
        ) == Ok::<FileView, EntryError>(file@),
        made matches Err(error) ==> made_file(
            name@,
            path@,
            is_dir,
            is_symlink,
            modified_time.spec_nanos(),
            relative_text(relative),
            absolute_text(absolute),
        ) == Err::<FileView, EntryError>(error),
{
    let relative_time = match relative {
        Ok(phrase) => phrase,
        Err(error) => {
            return Err(EntryError::Time(error));
        },
    };
    let absolute_time = match absolute {
        Some(text) => text,
        None => {
            return Err(EntryError::NoDate);
        },
    };
    let file_type = classify(name.as_str(), is_dir, is_symlink);
    Ok(File { name, modified_time, absolute_time, relative_time, file_type, is_dir, path })
}

/// Builds the entry for the directory member called `name` at `path`, last
/// modified at `modified_time`, as seen at the instant `now`; `offset` is how
/// many seconds east of Greenwich the local zone was found to be at
/// `modified_time`, if that was found. The entry is built exactly where the
/// member was modified no later than `now` and its modification time has a
/// text for that offset. A member modified after `now` is refused for that,
/// before anything else is looked at.
pub fn get_path_mtime(
    name: String,
    path: String,
    is_dir: bool,
    is_symlink: bool,
    modified_time: Timestamp,
    now: &Timestamp,
    offset: Option<i32>,
) -> (made: Result<File, EntryError>)
    ensures
        made is Ok <==> modified_time.spec_nanos() <= now.spec_nanos() && has_text(
            modified_time.spec_secs(),
            offset,
        ),
        modified_time.spec_nanos() > now.spec_nanos() ==> made == Err::<File, EntryError>(
            EntryError::Time(TimeError::LaterThanNow),
        ),
        modified_time.spec_nanos() <= now.spec_nanos() && !has_text(
            modified_time.spec_secs(),
            offset,
        ) ==> made == Err::<File, EntryError>(EntryError::NoDate),
        made matches Ok(file) ==> made_file(
            name@,
            path@,
            is_dir,
            is_symlink,
            modified_time.spec_nanos(),
            relative_time(now.spec_nanos(), modified_time.spec_nanos()),
            text_with(modified_time.spec_secs(), modified_time.spec_subsec_nanos(), offset),
        ) == Ok::<FileView, EntryError>(file@),
{
    let relative = get_relative_time(now, &modified_time);
    let absolute = human_readable_system_time(&modified_time, offset);
    make_file(name, path, is_dir, is_symlink, modified_time, relative, absolute)
}

} // verus!
