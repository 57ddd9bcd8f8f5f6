//! Subtitle files on disk: the format that a file's extension stands for, and
//! the names derived from a file's name.

use crate::text::str_eq;
use vstd::prelude::*;
use vstd::string::StringExecFns;

verus! {

/// Enumeration of different recognized subtitles file formats.
#[derive(Clone, Copy, Debug, PartialEq, Eq, Structural)]
pub enum SubtitleFormat {
    /// Subrip
    /// File extension : `.srt`
    Srt,
    /// File extension : `.idx` + `.sub`
    /// `idx` file is optional.
    VobSub,
    /// HDMV PGS,
    /// File extension : `.sup`
    Pgs,
}

/// The format that a file extension stands for, by exact match.
pub open spec fn format_of(ext: Seq<char>) -> Option<SubtitleFormat> {
    if ext == "srt"@ {
        Some(SubtitleFormat::Srt)
    } else if ext == "sub"@ {
        Some(SubtitleFormat::VobSub)
    } else if ext == "sup"@ {
        Some(SubtitleFormat::Pgs)
    } else {
        None
    }
}

impl SubtitleFormat {
    /// The file extension of the format, without the dot.
    pub open spec fn extension_chars(self) -> Seq<char> {
        match self {
            SubtitleFormat::Srt => "srt"@,
            SubtitleFormat::VobSub => "sub"@,
            SubtitleFormat::Pgs => "sup"@,
        }
    }

    /// Indicate if the format is base on text (unlike binary format)
    pub fn is_text(self) -> (text: bool)
        ensures
            text == (self == SubtitleFormat::Srt),
    {
        match self {
            Self::Srt => true,
            Self::VobSub | Self::Pgs => false,
        }
    }

    /// Indicate if the format is based on images.
    pub fn is_image(self) -> (image: bool)
        ensures
            image == (self == SubtitleFormat::VobSub || self == SubtitleFormat::Pgs),
    {
        match self {
            Self::Srt => false,
            Self::VobSub | Self::Pgs => true,
        }
    }

    /// The format that the file extension `ext` stands for.
    pub fn from_extension(ext: &str) -> (format: Option<Self>)
        ensures
            format == format_of(ext@),
    {
        if str_eq(ext, "srt") {
            Some(Self::Srt)
        } else if str_eq(ext, "sub") {
            Some(Self::VobSub)
        } else if str_eq(ext, "sup") {
            Some(Self::Pgs)
        } else {
            None
        }
    }

    /// The format of a file by the extension of its name: a name without an
    /// extension names no subtitle file, nor does one whose extension stands
    /// for no format.
    pub fn of_file(extension: Option<&str>) -> (format: Result<Self, SubtitleFileError>)
        ensures
            match format {
                Ok(found) => extension matches Some(ext) && format_of(ext@) == Some(found),
                Err(SubtitleFileError::NoExtension) => extension is None,
                Err(SubtitleFileError::UnknownExtension(refused)) => extension matches Some(ext)
                    && format_of(ext@) is None && refused@ == ext@,
            },
    {
        match extension {
            None => Err(SubtitleFileError::NoExtension),
            Some(ext) => match Self::from_extension(ext) {
                Some(format) => Ok(format),
                None => Err(SubtitleFileError::UnknownExtension(ext.to_owned())),
            },
        }
    }

    /// The file extension of the format, without the dot.
    pub fn extension(self) -> (ext: &'static str)
        ensures
            ext@ == self.extension_chars(),
    {
        match self {
            Self::Srt => "srt",
            Self::VobSub => "sub",
            Self::Pgs => "sup",
        }
    }
}

/// Every format is a text format or an image format, and never both.
pub proof fn lemma_text_or_image(format: SubtitleFormat)
    ensures
        (format == SubtitleFormat::Srt) != (format == SubtitleFormat::VobSub || format
            == SubtitleFormat::Pgs),
{
}

/// The extension of a format stands for that format, and for no other.
pub proof fn lemma_extension_stands_for_format(format: SubtitleFormat)
    ensures
        format_of(format.extension_chars()) == Some(format),
{
    reveal_strlit("srt");
    reveal_strlit("sub");
    reveal_strlit("sup");
    assert("srt"@[1] == 'r');
    assert("sub"@[1] == 'u');
    assert("sub"@[2] == 'b');
    assert("sup"@[2] == 'p');
}

/// Why a path does not name a subtitle file.
#[derive(Debug)]
pub enum SubtitleFileError {
    /// The file name has no extension.
    NoExtension,
    /// The extension, which the variant carries, stands for no format.
    UnknownExtension(String),
}

/// A subtitle file as mathematics sees it.
pub struct FileInfo {
    /// The full path of the file.
    pub path: Seq<char>,
    /// The file name without its extension and the dot before it.
    pub file_stem: Seq<char>,
    /// The format that the extension stands for.
    pub format: SubtitleFormat,
}

/// The name of the file that stands beside a subtitle file and carries
/// `pre_ext` before the extension.
pub open spec fn new_name(file_stem: Seq<char>, pre_ext: Seq<char>, format: SubtitleFormat) -> Seq<
    char,
> {
    file_stem + seq!['.'] + pre_ext + seq!['.'] + format.extension_chars()
}

/// Struct to handle information on a Subtitle file.
#[derive(Debug)]
pub struct SubtitleFile {
    path: String,
    file_stem: String,
    format: SubtitleFormat,
}

impl View for SubtitleFile {
    type V = FileInfo;

    closed spec fn view(&self) -> FileInfo {
        FileInfo { path: self.path@, file_stem: self.file_stem@, format: self.format }
    }
}

impl SubtitleFile {
    /// The subtitle file at `path`, whose name is `file_stem`, a dot and the
    /// extension of `format`.
    pub fn new(path: String, file_stem: String, format: SubtitleFormat) -> (file: Self)
        ensures
            file@ == (FileInfo { path: path@, file_stem: file_stem@, format }),
    {
        Self { path, file_stem, format }
    }

    /// Get full path of the file
    pub fn path(&self) -> (path: &str)
        ensures
            path@ == self@.path,
    {
        self.path.as_str()
    }

    /// The file name without its extension.
    pub fn file_stem(&self) -> (stem: &str)
        ensures
            stem@ == self@.file_stem,
    {
        self.file_stem.as_str()
    }

    /// Indicate if the file correspond to a Subtitle text format.
    pub fn is_text(&self) -> (text: bool)
        ensures
            text == (self@.format == SubtitleFormat::Srt),
    {
        self.format.is_text()
    }

    /// Indicate if the file correspond to a Subtitle image format.
    pub fn is_image(&self) -> (image: bool)
        ensures
            image == (self@.format == SubtitleFormat::VobSub || self@.format
                == SubtitleFormat::Pgs),
    {
        self.format.is_image()
    }

    /// The format of the file.
    pub fn format(&self) -> (format: SubtitleFormat)
        ensures
            format == self@.format,
    {
        self.format
    }

    /// The name of the file that stands beside this one and carries `pre_ext`
    /// before the extension: `movie.srt` and `old` give `movie.old.srt`.
    pub fn gen_new_name(&self, pre_ext: &str) -> (name: String)
        ensures
            name@ == new_name(self@.file_stem, pre_ext@, self@.format),
    {
        proof {
            reveal_strlit(".");
        }
        let mut name = String::from_str(self.file_stem.as_str());
        name.append(".");
        name.append(pre_ext);
        name.append(".");
        name.append(self.format.extension());
        assert(name@ =~= new_name(self@.file_stem, pre_ext@, self@.format)) by {
            assert("."@ =~= seq!['.']);
        }
        name
    }
}

} // verus!
