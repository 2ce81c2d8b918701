//! What the lists show of an item besides its name and size: its age in words, and the kind
//! of file that its extension stands for.

use crate::models::Timestamp;
use crate::paths::is_listed;
use crate::platform::literal_texts;
use crate::text::{decimal, decimal_digits, signed_decimal, signed_digits};
use vstd::prelude::*;
use vstd::string::StringExecFns;

verus! {

/// An age in days, in the largest unit that is full at least once: years of 365 days, months
/// of 30 days, days; an age of no day is today.
pub open spec fn age_words(days: u64) -> Seq<char> {
    if days >= 365 {
        decimal_digits((days / 365) as nat) + " years"@
    } else if days >= 30 {
        decimal_digits((days / 30) as nat) + " months"@
    } else if days > 0 {
        decimal_digits(days as nat) + " days"@
    } else {
        "today"@
    }
}

/// Writes an age in days in words.
pub fn format_age_days(days: u64) -> (text: String)
    ensures
        text@ == age_words(days),
{
    if days >= 365 {
        let mut text = decimal(days / 365);
        text.append(" years");
        text
    } else if days >= 30 {
        let mut text = decimal(days / 30);
        text.append(" months");
        text
    } else if days > 0 {
        let mut text = decimal(days);
        text.append(" days");
        text
    } else {
        String::from_str("today")
    }
}

/// How often `unit` goes into `span`, rounded towards zero.
pub open spec fn whole_units(span: int, unit: int) -> int {
    if span >= 0 {
        span / unit
    } else {
        -((-span) / unit)
    }
}

/// The time from `then` to `now` in words, in the largest unit that is full more than once
/// for years and months and at least once for days and hours; less than an hour is told in
/// minutes, which are negative where `then` lies after `now`.
pub open spec fn ago_words(then: Timestamp, now: Timestamp) -> Seq<char> {
    let span = now.value() - then.value();
    let days = whole_units(span, 86_400_000_000_000);
    let hours = whole_units(span, 3_600_000_000_000);
    let minutes = whole_units(span, 60_000_000_000);
    if days > 365 {
        decimal_digits((days / 365) as nat) + " years ago"@
    } else if days > 30 {
        decimal_digits((days / 30) as nat) + " months ago"@
    } else if days > 0 {
        decimal_digits(days as nat) + " days ago"@
    } else if hours > 0 {
        decimal_digits(hours as nat) + " hours ago"@
    } else {
        signed_digits(minutes) + " min ago"@
    }
}

/// How often `unit` goes into `span`, rounded towards zero.
fn count_units(span: i128, unit: i128) -> (count: i128)
    requires
        unit > 0,
        -i128::MAX <= span,
    ensures
        count == whole_units(span as int, unit as int),
{
    if span >= 0 {
        span / unit
    } else {
        -((-span) / unit)
    }
}

/// Tells in words how long ago `then` was at the time `now`.
pub fn format_age(then: &Timestamp, now: &Timestamp) -> (text: String)
    ensures
        text@ == ago_words(*then, *now),
{
    let span: i128 = now.total_nanos() - then.total_nanos();
    let days: i128 = count_units(span, 86_400_000_000_000);
    if days > 365 {
        let mut text = decimal((days / 365) as u64);
        text.append(" years ago");
        text
    } else if days > 30 {
        let mut text = decimal((days / 30) as u64);
        text.append(" months ago");
        text
    } else if days > 0 {
        let mut text = decimal(days as u64);
        text.append(" days ago");
        text
    } else {
        let hours: i128 = count_units(span, 3_600_000_000_000);
        if hours > 0 {
            let mut text = decimal(hours as u64);
            text.append(" hours ago");
            text
        } else {
            let minutes: i128 = count_units(span, 60_000_000_000);
            let mut text = signed_decimal(minutes as i64);
            text.append(" min ago");
            text
        }
    }
}

/// The kinds of file that the preview tells apart.
#[derive(Debug, Clone, Copy, PartialEq, Eq, Structural)]
pub enum FileKind {
    Text,
    Image,
    Video,
    Audio,
}

/// The extensions of a kind, in lower case and without the dot.
pub open spec fn extensions(kind: FileKind) -> Seq<Seq<char>> {
    match kind {
        FileKind::Text => seq![
            "txt"@,
            "md"@,
            "rs"@,
            "toml"@,
            "json"@,
            "xml"@,
            "yaml"@,
            "yml"@,
            "sh"@,
            "py"@,
            "js"@,
            "ts"@,
            "html"@,
            "css"@,
            "c"@,
            "cpp"@,
            "h"@,
            "hpp"@,
            "java"@,
            "go"@,
            "rb"@,
            "php"@,
            "swift"@,
            "kt"@,
            "log"@,
            "csv"@,
            "ini"@,
            "conf"@,
            "cfg"@,
            "srt"@,
            "vtt"@,
            "ass"@,
            "sub"@,
        ],
        FileKind::Image => seq![
            "jpg"@,
            "jpeg"@,
            "png"@,
            "gif"@,
            "bmp"@,
            "svg"@,
            "webp"@,
            "ico"@,
            "tiff"@,
            "tif"@,
        ],
        FileKind::Video => seq![
            "mp4"@,
            "avi"@,
            "mkv"@,
            "mov"@,
            "wmv"@,
            "flv"@,
            "webm"@,
            "m4v"@,
            "mpg"@,
            "mpeg"@,
        ],
        FileKind::Audio => seq![
            "mp3"@,
            "wav"@,
            "flac"@,
            "aac"@,
            "ogg"@,
            "m4a"@,
            "wma"@,
            "opus"@,
            "alac"@,
            "ape"@,
        ],
    }
}

/// Whether the extension is one of the kind.
pub open spec fn has_kind(extension: Seq<char>, kind: FileKind) -> bool {
    extensions(kind).contains(extension)
}

fn extension_list(kind: FileKind) -> (list: Vec<&'static str>)
    ensures
        literal_texts(list@) == extensions(kind),
{
    let list: Vec<&'static str> = match kind {
        FileKind::Text => vec![
            "txt", "md", "rs", "toml", "json", "xml", "yaml", "yml", "sh", "py", "js", "ts", "html",
            "css", "c", "cpp", "h", "hpp", "java", "go", "rb", "php", "swift", "kt", "log", "csv",
            "ini", "conf", "cfg", "srt", "vtt", "ass", "sub",
        ],
        FileKind::Image => vec![
            "jpg", "jpeg", "png", "gif", "bmp", "svg", "webp", "ico", "tiff", "tif",
        ],
        FileKind::Video => vec![
            "mp4", "avi", "mkv", "mov", "wmv", "flv", "webm", "m4v", "mpg", "mpeg",
        ],
        FileKind::Audio => vec![
            "mp3", "wav", "flac", "aac", "ogg", "m4a", "wma", "opus", "alac", "ape",
        ],
    };
    assert(literal_texts(list@) =~= extensions(kind));
    list
}

/// Whether the extension is one of the kind.
pub fn is_of_kind(extension: &str, kind: FileKind) -> (is: bool)
    ensures
        is == has_kind(extension@, kind),
{
    let list = extension_list(kind);
    let is = is_listed(&list, extension);
    proof {
        let texts = literal_texts(list@);
        if is {
            let i = choose|i: int| 0 <= i < list@.len() && (#[trigger] list@[i])@ == extension@;
            assert(texts[i] == extension@);
        } else {
            if texts.contains(extension@) {
                let i = choose|i: int| 0 <= i < texts.len() && texts[i] == extension@;
                assert(list@[i]@ == extension@);
            }
        }
    }
    is
}

pub fn is_text_file(extension: &str) -> (is: bool)
    ensures
        is == has_kind(extension@, FileKind::Text),
{
    is_of_kind(extension, FileKind::Text)
}

pub fn is_image_file(extension: &str) -> (is: bool)
    ensures
        is == has_kind(extension@, FileKind::Image),
{
    is_of_kind(extension, FileKind::Image)
}

pub fn is_video_file(extension: &str) -> (is: bool)
    ensures
        is == has_kind(extension@, FileKind::Video),
{
    is_of_kind(extension, FileKind::Video)
}

pub fn is_audio_file(extension: &str) -> (is: bool)
    ensures
        is == has_kind(extension@, FileKind::Audio),
{
    is_of_kind(extension, FileKind::Audio)
}

} // verus!
