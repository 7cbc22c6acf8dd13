//! File types: the extension table and the category of a file.
use vstd::prelude::*;

use crate::path::{extension, spec_extension};
use crate::text::{ascii_lowercase, is_ascii_chars, lowercase_of, str_eq, to_lowercase, trim, trimmed_of};

verus! {

/// Extensions registered as "Image".
pub open spec fn image_extensions() -> Seq<Seq<char>> {
    seq![
        "jpg"@, "jpeg"@, "png"@, "gif"@, "webp"@, "bmp"@, "tiff"@, "tif"@,
        "svg"@, "heic"@, "heif"@, "ico"@, "raw"@, "cr2"@, "cr3"@, "nef"@,
        "arw"@, "dng"@, "orf"@, "rw2"@, "psd"@, "ai"@, "eps"@, "avif"@,
        "jfif"@,
    ]
}

/// Extensions registered as "Video".
pub open spec fn video_extensions() -> Seq<Seq<char>> {
    seq![
        "mp4"@, "mov"@, "avi"@, "mkv"@, "webm"@, "m4v"@, "flv"@, "wmv"@,
        "mpg"@, "mpeg"@, "3gp"@, "ogv"@, "mts"@, "m2ts"@, "ts"@, "vob"@,
    ]
}

/// Extensions registered as "Audio".
pub open spec fn audio_extensions() -> Seq<Seq<char>> {
    seq![
        "mp3"@, "wav"@, "flac"@, "aac"@, "m4a"@, "ogg"@, "wma"@, "aiff"@,
        "aif"@, "opus"@, "mid"@, "midi"@, "caf"@,
    ]
}

/// Extensions registered as "Document".
pub open spec fn document_extensions() -> Seq<Seq<char>> {
    seq![
        "pdf"@, "doc"@, "docx"@, "txt"@, "rtf"@, "odt"@, "pages"@, "md"@,
        "tex"@, "epub"@, "mobi"@, "azw"@, "azw3"@, "xps"@, "wps"@,
    ]
}

/// Extensions registered as "Spreadsheet".
pub open spec fn spreadsheet_extensions() -> Seq<Seq<char>> {
    seq![
        "xls"@, "xlsx"@, "csv"@, "numbers"@, "ods"@, "tsv"@,
    ]
}

/// Extensions registered as "Presentation".
pub open spec fn presentation_extensions() -> Seq<Seq<char>> {
    seq![
        "ppt"@, "pptx"@, "key"@, "odp"@,
    ]
}

/// Extensions registered as "Archive".
pub open spec fn archive_extensions() -> Seq<Seq<char>> {
    seq![
        "zip"@, "rar"@, "7z"@, "tar"@, "gz"@, "bz2"@, "xz"@, "tgz"@,
        "tbz2"@, "lz"@, "lzma"@, "zst"@,
    ]
}

/// Extensions registered as "Code".
pub open spec fn code_extensions() -> Seq<Seq<char>> {
    seq![
        "js"@, "ts"@, "jsx"@, "tsx"@, "py"@, "rs"@, "go"@, "java"@,
        "cpp"@, "c"@, "h"@, "hpp"@, "cs"@, "swift"@, "kt"@, "rb"@,
        "php"@, "html"@, "htm"@, "css"@, "scss"@, "sass"@, "less"@, "json"@,
        "xml"@, "yaml"@, "yml"@, "toml"@, "sh"@, "bash"@, "zsh"@, "sql"@,
        "vue"@, "svelte"@, "m"@, "mm"@, "pl"@, "r"@, "lua"@, "dart"@,
        "scala"@, "vb"@, "fs"@, "clj"@, "ex"@, "exs"@, "hs"@, "elm"@,
        "wasm"@,
    ]
}

/// Extensions registered as "Font".
pub open spec fn font_extensions() -> Seq<Seq<char>> {
    seq![
        "ttf"@, "otf"@, "woff"@, "woff2"@, "eot"@,
    ]
}

/// Extensions registered as "Disk Image".
pub open spec fn disk_image_extensions() -> Seq<Seq<char>> {
    seq![
        "dmg"@, "iso"@, "img"@, "toast"@, "sparseimage"@,
    ]
}

/// Extensions registered as "Application".
pub open spec fn application_extensions() -> Seq<Seq<char>> {
    seq![
        "app"@, "pkg"@, "exe"@, "msi"@, "deb"@, "rpm"@, "apk"@,
    ]
}

/// The file type that the extension table gives a (lower-case) extension.
/// Lists are registered in the order Image, Video, Audio, Document,
/// Spreadsheet, Presentation, Archive, Code, Font, Disk Image, Application,
/// and a later registration of an extension replaces an earlier one ("ts" is
/// both a video and a code extension, and ends up as Code).
pub open spec fn spec_file_type_of(ext: Seq<char>) -> Option<Seq<char>> {
    if application_extensions().contains(ext) {
        Some("Application"@)
    } else if disk_image_extensions().contains(ext) {
        Some("Disk Image"@)
    } else if font_extensions().contains(ext) {
        Some("Font"@)
    } else if code_extensions().contains(ext) {
        Some("Code"@)
    } else if archive_extensions().contains(ext) {
        Some("Archive"@)
    } else if presentation_extensions().contains(ext) {
        Some("Presentation"@)
    } else if spreadsheet_extensions().contains(ext) {
        Some("Spreadsheet"@)
    } else if document_extensions().contains(ext) {
        Some("Document"@)
    } else if audio_extensions().contains(ext) {
        Some("Audio"@)
    } else if video_extensions().contains(ext) {
        Some("Video"@)
    } else if image_extensions().contains(ext) {
        Some("Image"@)
    } else {
        None
    }
}

/// Whether `c` is an ASCII lower-case letter or digit.
pub open spec fn is_lower_alnum(c: char) -> bool {
    ('a' <= c && c <= 'z') || ('0' <= c && c <= '9')
}

/// Whether `s` is a non-empty word of ASCII lower-case letters and digits.
pub open spec fn is_lower_word(s: Seq<char>) -> bool {
    s.len() > 0 && forall|i: int| 0 <= i < s.len() ==> is_lower_alnum(#[trigger] s[i])
}

/// Whether every extension of a list is such a word.
pub open spec fn all_lower_words(list: Seq<Seq<char>>) -> bool {
    forall|j: int| 0 <= j < list.len() ==> is_lower_word(#[trigger] list[j])
}

proof fn lemma_image_extensions_lower()
    ensures
        all_lower_words(image_extensions()),
{
    reveal_strlit("jpg");
    reveal_strlit("jpeg");
    reveal_strlit("png");
    reveal_strlit("gif");
    reveal_strlit("webp");
    reveal_strlit("bmp");
    reveal_strlit("tiff");
    reveal_strlit("tif");
    reveal_strlit("svg");
    reveal_strlit("heic");
    reveal_strlit("heif");
    reveal_strlit("ico");
    reveal_strlit("raw");
    reveal_strlit("cr2");
    reveal_strlit("cr3");
    reveal_strlit("nef");
    reveal_strlit("arw");
    reveal_strlit("dng");
    reveal_strlit("orf");
    reveal_strlit("rw2");
    reveal_strlit("psd");
    reveal_strlit("ai");
    reveal_strlit("eps");
    reveal_strlit("avif");
    reveal_strlit("jfif");
    let list = image_extensions();
    assert forall|j: int| 0 <= j < list.len() implies is_lower_word(#[trigger] list[j]) by {
        if j == 0 {
            assert(list[j] == "jpg"@);
        } else if j == 1 {
            assert(list[j] == "jpeg"@);
        } else if j == 2 {
            assert(list[j] == "png"@);
        } else if j == 3 {
            assert(list[j] == "gif"@);
        } else if j == 4 {
            assert(list[j] == "webp"@);
        } else if j == 5 {
            assert(list[j] == "bmp"@);
        } else if j == 6 {
            assert(list[j] == "tiff"@);
        } else if j == 7 {
            assert(list[j] == "tif"@);
        } else if j == 8 {
            assert(list[j] == "svg"@);
        } else if j == 9 {
            assert(list[j] == "heic"@);
        } else if j == 10 {
            assert(list[j] == "heif"@);
        } else if j == 11 {
            assert(list[j] == "ico"@);
        } else if j == 12 {
            assert(list[j] == "raw"@);
        } else if j == 13 {
            assert(list[j] == "cr2"@);
        } else if j == 14 {
            assert(list[j] == "cr3"@);
        } else if j == 15 {
            assert(list[j] == "nef"@);
        } else if j == 16 {
            assert(list[j] == "arw"@);
        } else if j == 17 {
            assert(list[j] == "dng"@);
        } else if j == 18 {
            assert(list[j] == "orf"@);
        } else if j == 19 {
            assert(list[j] == "rw2"@);
        } else if j == 20 {
            assert(list[j] == "psd"@);
        } else if j == 21 {
            assert(list[j] == "ai"@);
        } else if j == 22 {
            assert(list[j] == "eps"@);
        } else if j == 23 {
            assert(list[j] == "avif"@);
        } else if j == 24 {
            assert(list[j] == "jfif"@);
        }
    }
}

proof fn lemma_video_extensions_lower()
    ensures
        all_lower_words(video_extensions()),
{
    reveal_strlit("mp4");
    reveal_strlit("mov");
    reveal_strlit("avi");
    reveal_strlit("mkv");
    reveal_strlit("webm");
    reveal_strlit("m4v");
    reveal_strlit("flv");
    reveal_strlit("wmv");
    reveal_strlit("mpg");
    reveal_strlit("mpeg");
    reveal_strlit("3gp");
    reveal_strlit("ogv");
    reveal_strlit("mts");
    reveal_strlit("m2ts");
    reveal_strlit("ts");
    reveal_strlit("vob");
    let list = video_extensions();
    assert forall|j: int| 0 <= j < list.len() implies is_lower_word(#[trigger] list[j]) by {
        if j == 0 {
            assert(list[j] == "mp4"@);
        } else if j == 1 {
            assert(list[j] == "mov"@);
        } else if j == 2 {
            assert(list[j] == "avi"@);
        } else if j == 3 {
            assert(list[j] == "mkv"@);
        } else if j == 4 {
            assert(list[j] == "webm"@);
        } else if j == 5 {
            assert(list[j] == "m4v"@);
        } else if j == 6 {
            assert(list[j] == "flv"@);
        } else if j == 7 {
            assert(list[j] == "wmv"@);
        } else if j == 8 {
            assert(list[j] == "mpg"@);
        } else if j == 9 {
            assert(list[j] == "mpeg"@);
        } else if j == 10 {
            assert(list[j] == "3gp"@);
        } else if j == 11 {
            assert(list[j] == "ogv"@);
        } else if j == 12 {
            assert(list[j] == "mts"@);
        } else if j == 13 {
            assert(list[j] == "m2ts"@);
        } else if j == 14 {
            assert(list[j] == "ts"@);
        } else if j == 15 {
            assert(list[j] == "vob"@);
        }
    }
}

proof fn lemma_audio_extensions_lower()
    ensures
        all_lower_words(audio_extensions()),
{
    reveal_strlit("mp3");
    reveal_strlit("wav");
    reveal_strlit("flac");
    reveal_strlit("aac");
    reveal_strlit("m4a");
    reveal_strlit("ogg");
    reveal_strlit("wma");
    reveal_strlit("aiff");
    reveal_strlit("aif");
    reveal_strlit("opus");
    reveal_strlit("mid");
    reveal_strlit("midi");
    reveal_strlit("caf");
    let list = audio_extensions();
    assert forall|j: int| 0 <= j < list.len() implies is_lower_word(#[trigger] list[j]) by {
        if j == 0 {
            assert(list[j] == "mp3"@);
        } else if j == 1 {
            assert(list[j] == "wav"@);
        } else if j == 2 {
            assert(list[j] == "flac"@);
        } else if j == 3 {
            assert(list[j] == "aac"@);
        } else if j == 4 {
            assert(list[j] == "m4a"@);
        } else if j == 5 {
            assert(list[j] == "ogg"@);
        } else if j == 6 {
            assert(list[j] == "wma"@);
        } else if j == 7 {
            assert(list[j] == "aiff"@);
        } else if j == 8 {
            assert(list[j] == "aif"@);
        } else if j == 9 {
            assert(list[j] == "opus"@);
        } else if j == 10 {
            assert(list[j] == "mid"@);
        } else if j == 11 {
            assert(list[j] == "midi"@);
        } else if j == 12 {
            assert(list[j] == "caf"@);
        }
    }
}

proof fn lemma_document_extensions_lower()
    ensures
        all_lower_words(document_extensions()),
{
    reveal_strlit("pdf");
    reveal_strlit("doc");
    reveal_strlit("docx");
    reveal_strlit("txt");
    reveal_strlit("rtf");
    reveal_strlit("odt");
    reveal_strlit("pages");
    reveal_strlit("md");
    reveal_strlit("tex");
    reveal_strlit("epub");
    reveal_strlit("mobi");
    reveal_strlit("azw");
    reveal_strlit("azw3");
    reveal_strlit("xps");
    reveal_strlit("wps");
    let list = document_extensions();
    assert forall|j: int| 0 <= j < list.len() implies is_lower_word(#[trigger] list[j]) by {
        if j == 0 {
            assert(list[j] == "pdf"@);
        } else if j == 1 {
            assert(list[j] == "doc"@);
        } else if j == 2 {
            assert(list[j] == "docx"@);
        } else if j == 3 {
            assert(list[j] == "txt"@);
        } else if j == 4 {
            assert(list[j] == "rtf"@);
        } else if j == 5 {
            assert(list[j] == "odt"@);
        } else if j == 6 {
            assert(list[j] == "pages"@);
        } else if j == 7 {
            assert(list[j] == "md"@);
        } else if j == 8 {
            assert(list[j] == "tex"@);
        } else if j == 9 {
            assert(list[j] == "epub"@);
        } else if j == 10 {
            assert(list[j] == "mobi"@);
        } else if j == 11 {
            assert(list[j] == "azw"@);
        } else if j == 12 {
            assert(list[j] == "azw3"@);
        } else if j == 13 {
            assert(list[j] == "xps"@);
        } else if j == 14 {
            assert(list[j] == "wps"@);
        }
    }
}

proof fn lemma_spreadsheet_extensions_lower()
    ensures
        all_lower_words(spreadsheet_extensions()),
{
    reveal_strlit("xls");
    reveal_strlit("xlsx");
    reveal_strlit("csv");
    reveal_strlit("numbers");
    reveal_strlit("ods");
    reveal_strlit("tsv");
    let list = spreadsheet_extensions();
    assert forall|j: int| 0 <= j < list.len() implies is_lower_word(#[trigger] list[j]) by {
        if j == 0 {
            assert(list[j] == "xls"@);
        } else if j == 1 {
            assert(list[j] == "xlsx"@);
        } else if j == 2 {
            assert(list[j] == "csv"@);
        } else if j == 3 {
            assert(list[j] == "numbers"@);
        } else if j == 4 {
            assert(list[j] == "ods"@);
        } else if j == 5 {
            assert(list[j] == "tsv"@);
        }
    }
}

proof fn lemma_presentation_extensions_lower()
    ensures
        all_lower_words(presentation_extensions()),
{
    reveal_strlit("ppt");
    reveal_strlit("pptx");
    reveal_strlit("key");
    reveal_strlit("odp");
    let list = presentation_extensions();
    assert forall|j: int| 0 <= j < list.len() implies is_lower_word(#[trigger] list[j]) by {
        if j == 0 {
            assert(list[j] == "ppt"@);
        } else if j == 1 {
            assert(list[j] == "pptx"@);
        } else if j == 2 {
            assert(list[j] == "key"@);
        } else if j == 3 {
            assert(list[j] == "odp"@);
        }
    }
}

proof fn lemma_archive_extensions_lower()
    ensures
        all_lower_words(archive_extensions()),
{
    reveal_strlit("zip");
    reveal_strlit("rar");
    reveal_strlit("7z");
    reveal_strlit("tar");
    reveal_strlit("gz");
    reveal_strlit("bz2");
    reveal_strlit("xz");
    reveal_strlit("tgz");
    reveal_strlit("tbz2");
    reveal_strlit("lz");
    reveal_strlit("lzma");
    reveal_strlit("zst");
    let list = archive_extensions();
    assert forall|j: int| 0 <= j < list.len() implies is_lower_word(#[trigger] list[j]) by {
        if j == 0 {
            assert(list[j] == "zip"@);
        } else if j == 1 {
            assert(list[j] == "rar"@);
        } else if j == 2 {
            assert(list[j] == "7z"@);
        } else if j == 3 {
            assert(list[j] == "tar"@);
        } else if j == 4 {
            assert(list[j] == "gz"@);
        } else if j == 5 {
            assert(list[j] == "bz2"@);
        } else if j == 6 {
            assert(list[j] == "xz"@);
        } else if j == 7 {
            assert(list[j] == "tgz"@);
        } else if j == 8 {
            assert(list[j] == "tbz2"@);
        } else if j == 9 {
            assert(list[j] == "lz"@);
        } else if j == 10 {
            assert(list[j] == "lzma"@);
        } else if j == 11 {
            assert(list[j] == "zst"@);
        }
    }
}

proof fn lemma_code_extensions_lower()
    ensures
        all_lower_words(code_extensions()),
{
    reveal_strlit("js");
    reveal_strlit("ts");
    reveal_strlit("jsx");
    reveal_strlit("tsx");
    reveal_strlit("py");
    reveal_strlit("rs");
    reveal_strlit("go");
    reveal_strlit("java");
    reveal_strlit("cpp");
    reveal_strlit("c");
    reveal_strlit("h");
    reveal_strlit("hpp");
    reveal_strlit("cs");
    reveal_strlit("swift");
    reveal_strlit("kt");
    reveal_strlit("rb");
    reveal_strlit("php");
    reveal_strlit("html");
    reveal_strlit("htm");
    reveal_strlit("css");
    reveal_strlit("scss");
    reveal_strlit("sass");
    reveal_strlit("less");
    reveal_strlit("json");
    reveal_strlit("xml");
    reveal_strlit("yaml");
    reveal_strlit("yml");
    reveal_strlit("toml");
    reveal_strlit("sh");
    reveal_strlit("bash");
    reveal_strlit("zsh");
    reveal_strlit("sql");
    reveal_strlit("vue");
    reveal_strlit("svelte");
    reveal_strlit("m");
    reveal_strlit("mm");
    reveal_strlit("pl");
    reveal_strlit("r");
    reveal_strlit("lua");
    reveal_strlit("dart");
    reveal_strlit("scala");
    reveal_strlit("vb");
    reveal_strlit("fs");
    reveal_strlit("clj");
    reveal_strlit("ex");
    reveal_strlit("exs");
    reveal_strlit("hs");
    reveal_strlit("elm");
    reveal_strlit("wasm");
    let list = code_extensions();
    assert forall|j: int| 0 <= j < list.len() implies is_lower_word(#[trigger] list[j]) by {
        if j == 0 {
            assert(list[j] == "js"@);
        } else if j == 1 {
            assert(list[j] == "ts"@);
        } else if j == 2 {
            assert(list[j] == "jsx"@);
        } else if j == 3 {
            assert(list[j] == "tsx"@);
        } else if j == 4 {
            assert(list[j] == "py"@);
        } else if j == 5 {
            assert(list[j] == "rs"@);
        } else if j == 6 {
            assert(list[j] == "go"@);
        } else if j == 7 {
            assert(list[j] == "java"@);
        } else if j == 8 {
            assert(list[j] == "cpp"@);
        } else if j == 9 {
            assert(list[j] == "c"@);
        } else if j == 10 {
            assert(list[j] == "h"@);
        } else if j == 11 {
            assert(list[j] == "hpp"@);
        } else if j == 12 {
            assert(list[j] == "cs"@);
        } else if j == 13 {
            assert(list[j] == "swift"@);
        } else if j == 14 {
            assert(list[j] == "kt"@);
        } else if j == 15 {
            assert(list[j] == "rb"@);
        } else if j == 16 {
            assert(list[j] == "php"@);
        } else if j == 17 {
            assert(list[j] == "html"@);
        } else if j == 18 {
            assert(list[j] == "htm"@);
        } else if j == 19 {
            assert(list[j] == "css"@);
        } else if j == 20 {
            assert(list[j] == "scss"@);
        } else if j == 21 {
            assert(list[j] == "sass"@);
        } else if j == 22 {
            assert(list[j] == "less"@);
        } else if j == 23 {
            assert(list[j] == "json"@);
        } else if j == 24 {
            assert(list[j] == "xml"@);
        } else if j == 25 {
            assert(list[j] == "yaml"@);
        } else if j == 26 {
            assert(list[j] == "yml"@);
        } else if j == 27 {
            assert(list[j] == "toml"@);
        } else if j == 28 {
            assert(list[j] == "sh"@);
        } else if j == 29 {
            assert(list[j] == "bash"@);
        } else if j == 30 {
            assert(list[j] == "zsh"@);
        } else if j == 31 {
            assert(list[j] == "sql"@);
        } else if j == 32 {
            assert(list[j] == "vue"@);
        } else if j == 33 {
            assert(list[j] == "svelte"@);
        } else if j == 34 {
            assert(list[j] == "m"@);
        } else if j == 35 {
            assert(list[j] == "mm"@);
        } else if j == 36 {
            assert(list[j] == "pl"@);
        } else if j == 37 {
            assert(list[j] == "r"@);
        } else if j == 38 {
            assert(list[j] == "lua"@);
        } else if j == 39 {
            assert(list[j] == "dart"@);
        } else if j == 40 {
            assert(list[j] == "scala"@);
        } else if j == 41 {
            assert(list[j] == "vb"@);
        } else if j == 42 {
            assert(list[j] == "fs"@);
        } else if j == 43 {
            assert(list[j] == "clj"@);
        } else if j == 44 {
            assert(list[j] == "ex"@);
        } else if j == 45 {
            assert(list[j] == "exs"@);
        } else if j == 46 {
            assert(list[j] == "hs"@);
        } else if j == 47 {
            assert(list[j] == "elm"@);
        } else if j == 48 {
            assert(list[j] == "wasm"@);
        }
    }
}

proof fn lemma_font_extensions_lower()
    ensures
        all_lower_words(font_extensions()),
{
    reveal_strlit("ttf");
    reveal_strlit("otf");
    reveal_strlit("woff");
    reveal_strlit("woff2");
    reveal_strlit("eot");
    let list = font_extensions();
    assert forall|j: int| 0 <= j < list.len() implies is_lower_word(#[trigger] list[j]) by {
        if j == 0 {
            assert(list[j] == "ttf"@);
        } else if j == 1 {
            assert(list[j] == "otf"@);
        } else if j == 2 {
            assert(list[j] == "woff"@);
        } else if j == 3 {
            assert(list[j] == "woff2"@);
        } else if j == 4 {
            assert(list[j] == "eot"@);
        }
    }
}

proof fn lemma_disk_image_extensions_lower()
    ensures
        all_lower_words(disk_image_extensions()),
{
    reveal_strlit("dmg");
    reveal_strlit("iso");
    reveal_strlit("img");
    reveal_strlit("toast");
    reveal_strlit("sparseimage");
    let list = disk_image_extensions();
    assert forall|j: int| 0 <= j < list.len() implies is_lower_word(#[trigger] list[j]) by {
        if j == 0 {
            assert(list[j] == "dmg"@);
        } else if j == 1 {
            assert(list[j] == "iso"@);
        } else if j == 2 {
            assert(list[j] == "img"@);
        } else if j == 3 {
            assert(list[j] == "toast"@);
        } else if j == 4 {
            assert(list[j] == "sparseimage"@);
        }
    }
}

proof fn lemma_application_extensions_lower()
    ensures
        all_lower_words(application_extensions()),
{
    reveal_strlit("app");
    reveal_strlit("pkg");
    reveal_strlit("exe");
    reveal_strlit("msi");
    reveal_strlit("deb");
    reveal_strlit("rpm");
    reveal_strlit("apk");
    let list = application_extensions();
    assert forall|j: int| 0 <= j < list.len() implies is_lower_word(#[trigger] list[j]) by {
        if j == 0 {
            assert(list[j] == "app"@);
        } else if j == 1 {
            assert(list[j] == "pkg"@);
        } else if j == 2 {
            assert(list[j] == "exe"@);
        } else if j == 3 {
            assert(list[j] == "msi"@);
        } else if j == 4 {
            assert(list[j] == "deb"@);
        } else if j == 5 {
            assert(list[j] == "rpm"@);
        } else if j == 6 {
            assert(list[j] == "apk"@);
        }
    }
}

/// A word of ASCII lower-case letters and digits is ASCII text that
/// lower-casing leaves as it is.
pub proof fn lemma_lower_word_is_lowercase(s: Seq<char>)
    requires
        is_lower_word(s),
    ensures
        is_ascii_chars(s),
        ascii_lowercase(s) == s,
{
    assert forall|i: int| 0 <= i < s.len() implies (#[trigger] s[i] as u32) < 128 by {
        assert(is_lower_alnum(s[i]));
    }
    assert forall|i: int| 0 <= i < s.len() implies ascii_lowercase(s)[i] == s[i] by {
        assert(is_lower_alnum(s[i]));
    }
    assert(ascii_lowercase(s) =~= s);
}

/// The extension table: every extension in it is a non-empty word of ASCII
/// lower-case letters and digits, so it is ASCII text that lower-casing
/// leaves unchanged (`to_lowercase` on ASCII text is `ascii_lowercase`), and
/// the type it is registered with is one of the known file types.
pub proof fn lemma_extension_table_well_formed(ext: Seq<char>)
    requires
        spec_file_type_of(ext) is Some,
    ensures
        is_lower_word(ext),
        is_ascii_chars(ext),
        ascii_lowercase(ext) == ext,
        known_file_types().contains(spec_file_type_of(ext).unwrap()),
{
    lemma_image_extensions_lower();
    lemma_video_extensions_lower();
    lemma_audio_extensions_lower();
    lemma_document_extensions_lower();
    lemma_spreadsheet_extensions_lower();
    lemma_presentation_extensions_lower();
    lemma_archive_extensions_lower();
    lemma_code_extensions_lower();
    lemma_font_extensions_lower();
    lemma_disk_image_extensions_lower();
    lemma_application_extensions_lower();
    let known = known_file_types();
    assert(known[0] == "Image"@ && known[1] == "Video"@ && known[2] == "Audio"@ && known[3] == "Document"@);
    assert(known[4] == "Spreadsheet"@ && known[5] == "Presentation"@ && known[6] == "Archive"@ && known[7] == "Code"@);
    assert(known[8] == "Font"@ && known[9] == "Disk Image"@ && known[10] == "Application"@);
    if image_extensions().contains(ext) {
        let j = choose|j: int| 0 <= j < image_extensions().len() && image_extensions()[j] == ext;
        assert(is_lower_word(image_extensions()[j]));
    }
    if video_extensions().contains(ext) {
        let j = choose|j: int| 0 <= j < video_extensions().len() && video_extensions()[j] == ext;
        assert(is_lower_word(video_extensions()[j]));
    }
    if audio_extensions().contains(ext) {
        let j = choose|j: int| 0 <= j < audio_extensions().len() && audio_extensions()[j] == ext;
        assert(is_lower_word(audio_extensions()[j]));
    }
    if document_extensions().contains(ext) {
        let j = choose|j: int| 0 <= j < document_extensions().len() && document_extensions()[j] == ext;
        assert(is_lower_word(document_extensions()[j]));
    }
    if spreadsheet_extensions().contains(ext) {
        let j = choose|j: int| 0 <= j < spreadsheet_extensions().len() && spreadsheet_extensions()[j] == ext;
        assert(is_lower_word(spreadsheet_extensions()[j]));
    }
    if presentation_extensions().contains(ext) {
        let j = choose|j: int| 0 <= j < presentation_extensions().len() && presentation_extensions()[j] == ext;
        assert(is_lower_word(presentation_extensions()[j]));
    }
    if archive_extensions().contains(ext) {
        let j = choose|j: int| 0 <= j < archive_extensions().len() && archive_extensions()[j] == ext;
        assert(is_lower_word(archive_extensions()[j]));
    }
    if code_extensions().contains(ext) {
        let j = choose|j: int| 0 <= j < code_extensions().len() && code_extensions()[j] == ext;
        assert(is_lower_word(code_extensions()[j]));
    }
    if font_extensions().contains(ext) {
        let j = choose|j: int| 0 <= j < font_extensions().len() && font_extensions()[j] == ext;
        assert(is_lower_word(font_extensions()[j]));
    }
    if disk_image_extensions().contains(ext) {
        let j = choose|j: int| 0 <= j < disk_image_extensions().len() && disk_image_extensions()[j] == ext;
        assert(is_lower_word(disk_image_extensions()[j]));
    }
    if application_extensions().contains(ext) {
        let j = choose|j: int| 0 <= j < application_extensions().len() && application_extensions()[j] == ext;
        assert(is_lower_word(application_extensions()[j]));
    }
    lemma_lower_word_is_lowercase(ext);
}

/// The extension table registers the lists in the order Image, Video,
/// Audio, Document, Spreadsheet, Presentation, Archive, Code, Font, Disk
/// Image, Application: an extension gets the type of the last list that holds
/// it, and an extension in no list gets no type.
pub proof fn lemma_each_list_maps_to_its_type(ext: Seq<char>)
    ensures
        image_extensions().contains(ext) && !(video_extensions().contains(ext) || audio_extensions().contains(ext) || document_extensions().contains(ext) || spreadsheet_extensions().contains(ext) || presentation_extensions().contains(ext) || archive_extensions().contains(ext) || code_extensions().contains(ext) || font_extensions().contains(ext) || disk_image_extensions().contains(ext) || application_extensions().contains(ext)) ==> spec_file_type_of(ext) == Some("Image"@),
        video_extensions().contains(ext) && !(audio_extensions().contains(ext) || document_extensions().contains(ext) || spreadsheet_extensions().contains(ext) || presentation_extensions().contains(ext) || archive_extensions().contains(ext) || code_extensions().contains(ext) || font_extensions().contains(ext) || disk_image_extensions().contains(ext) || application_extensions().contains(ext)) ==> spec_file_type_of(ext) == Some("Video"@),
        audio_extensions().contains(ext) && !(document_extensions().contains(ext) || spreadsheet_extensions().contains(ext) || presentation_extensions().contains(ext) || archive_extensions().contains(ext) || code_extensions().contains(ext) || font_extensions().contains(ext) || disk_image_extensions().contains(ext) || application_extensions().contains(ext)) ==> spec_file_type_of(ext) == Some("Audio"@),
        document_extensions().contains(ext) && !(spreadsheet_extensions().contains(ext) || presentation_extensions().contains(ext) || archive_extensions().contains(ext) || code_extensions().contains(ext) || font_extensions().contains(ext) || disk_image_extensions().contains(ext) || application_extensions().contains(ext)) ==> spec_file_type_of(ext) == Some("Document"@),
        spreadsheet_extensions().contains(ext) && !(presentation_extensions().contains(ext) || archive_extensions().contains(ext) || code_extensions().contains(ext) || font_extensions().contains(ext) || disk_image_extensions().contains(ext) || application_extensions().contains(ext)) ==> spec_file_type_of(ext) == Some("Spreadsheet"@),
        presentation_extensions().contains(ext) && !(archive_extensions().contains(ext) || code_extensions().contains(ext) || font_extensions().contains(ext) || disk_image_extensions().contains(ext) || application_extensions().contains(ext)) ==> spec_file_type_of(ext) == Some("Presentation"@),
        archive_extensions().contains(ext) && !(code_extensions().contains(ext) || font_extensions().contains(ext) || disk_image_extensions().contains(ext) || application_extensions().contains(ext)) ==> spec_file_type_of(ext) == Some("Archive"@),
        code_extensions().contains(ext) && !(font_extensions().contains(ext) || disk_image_extensions().contains(ext) || application_extensions().contains(ext)) ==> spec_file_type_of(ext) == Some("Code"@),
        font_extensions().contains(ext) && !(disk_image_extensions().contains(ext) || application_extensions().contains(ext)) ==> spec_file_type_of(ext) == Some("Font"@),
        disk_image_extensions().contains(ext) && !(application_extensions().contains(ext)) ==> spec_file_type_of(ext) == Some("Disk Image"@),
        application_extensions().contains(ext) ==> spec_file_type_of(ext) == Some("Application"@),
        (!image_extensions().contains(ext) && !video_extensions().contains(ext) && !audio_extensions().contains(ext) && !document_extensions().contains(ext) && !spreadsheet_extensions().contains(ext) && !presentation_extensions().contains(ext) && !archive_extensions().contains(ext) && !code_extensions().contains(ext) && !font_extensions().contains(ext) && !disk_image_extensions().contains(ext) && !application_extensions().contains(ext)) <==> spec_file_type_of(ext) is None,
{
}

/// The names of the known file types.
pub open spec fn known_file_types() -> Seq<Seq<char>> {
    seq![
        "Image"@, "Video"@, "Audio"@, "Document"@, "Spreadsheet"@, "Presentation"@,
        "Archive"@, "Code"@, "Font"@, "Disk Image"@, "Application"@,
    ]
}

fn is_image_extension(ext: &str) -> (r: bool)
    ensures
        r == image_extensions().contains(ext@),
{
    let list: [&str; 25] = [
        "jpg", "jpeg", "png", "gif", "webp", "bmp", "tiff", "tif",
        "svg", "heic", "heif", "ico", "raw", "cr2", "cr3", "nef",
        "arw", "dng", "orf", "rw2", "psd", "ai", "eps", "avif",
        "jfif",
    ];
    proof {
        assert(views_of(list@) =~= image_extensions());
    }
    listed(&list, ext)
}

fn is_video_extension(ext: &str) -> (r: bool)
    ensures
        r == video_extensions().contains(ext@),
{
    let list: [&str; 16] = [
        "mp4", "mov", "avi", "mkv", "webm", "m4v", "flv", "wmv",
        "mpg", "mpeg", "3gp", "ogv", "mts", "m2ts", "ts", "vob",
    ];
    proof {
        assert(views_of(list@) =~= video_extensions());
    }
    listed(&list, ext)
}

fn is_audio_extension(ext: &str) -> (r: bool)
    ensures
        r == audio_extensions().contains(ext@),
{
    let list: [&str; 13] = [
        "mp3", "wav", "flac", "aac", "m4a", "ogg", "wma", "aiff",
        "aif", "opus", "mid", "midi", "caf",
    ];
    proof {
        assert(views_of(list@) =~= audio_extensions());
    }
    listed(&list, ext)
}

fn is_document_extension(ext: &str) -> (r: bool)
    ensures
        r == document_extensions().contains(ext@),
{
    let list: [&str; 15] = [
        "pdf", "doc", "docx", "txt", "rtf", "odt", "pages", "md",
        "tex", "epub", "mobi", "azw", "azw3", "xps", "wps",
    ];
    proof {
        assert(views_of(list@) =~= document_extensions());
    }
    listed(&list, ext)
}

fn is_spreadsheet_extension(ext: &str) -> (r: bool)
    ensures
        r == spreadsheet_extensions().contains(ext@),
{
    let list: [&str; 6] = [
        "xls", "xlsx", "csv", "numbers", "ods", "tsv",
    ];
    proof {
        assert(views_of(list@) =~= spreadsheet_extensions());
    }
    listed(&list, ext)
}

fn is_presentation_extension(ext: &str) -> (r: bool)
    ensures
        r == presentation_extensions().contains(ext@),
{
    let list: [&str; 4] = [
        "ppt", "pptx", "key", "odp",
    ];
    proof {
        assert(views_of(list@) =~= presentation_extensions());
    }
    listed(&list, ext)
}

fn is_archive_extension(ext: &str) -> (r: bool)
    ensures
        r == archive_extensions().contains(ext@),
{
    let list: [&str; 12] = [
        "zip", "rar", "7z", "tar", "gz", "bz2", "xz", "tgz",
        "tbz2", "lz", "lzma", "zst",
    ];
    proof {
        assert(views_of(list@) =~= archive_extensions());
    }
    listed(&list, ext)
}

fn is_code_extension(ext: &str) -> (r: bool)
    ensures
        r == code_extensions().contains(ext@),
{
    let list: [&str; 49] = [
        "js", "ts", "jsx", "tsx", "py", "rs", "go", "java",
        "cpp", "c", "h", "hpp", "cs", "swift", "kt", "rb",
        "php", "html", "htm", "css", "scss", "sass", "less", "json",
        "xml", "yaml", "yml", "toml", "sh", "bash", "zsh", "sql",
        "vue", "svelte", "m", "mm", "pl", "r", "lua", "dart",
        "scala", "vb", "fs", "clj", "ex", "exs", "hs", "elm",
        "wasm",
    ];
    proof {
        assert(views_of(list@) =~= code_extensions());
    }
    listed(&list, ext)
}

fn is_font_extension(ext: &str) -> (r: bool)
    ensures
        r == font_extensions().contains(ext@),
{
    let list: [&str; 5] = [
        "ttf", "otf", "woff", "woff2", "eot",
    ];
    proof {
        assert(views_of(list@) =~= font_extensions());
    }
    listed(&list, ext)
}

fn is_disk_image_extension(ext: &str) -> (r: bool)
    ensures
        r == disk_image_extensions().contains(ext@),
{
    let list: [&str; 5] = [
        "dmg", "iso", "img", "toast", "sparseimage",
    ];
    proof {
        assert(views_of(list@) =~= disk_image_extensions());
    }
    listed(&list, ext)
}

fn is_application_extension(ext: &str) -> (r: bool)
    ensures
        r == application_extensions().contains(ext@),
{
    let list: [&str; 7] = [
        "app", "pkg", "exe", "msi", "deb", "rpm", "apk",
    ];
    proof {
        assert(views_of(list@) =~= application_extensions());
    }
    listed(&list, ext)
}

/// The file type that the extension table gives a (lower-case) extension.
pub fn file_type_of(ext: &str) -> (r: Option<&'static str>)
    ensures
        match r {
            Some(t) => spec_file_type_of(ext@) == Some(t@),
            None => spec_file_type_of(ext@) is None,
        },
{
    if is_application_extension(ext) {
        Some("Application")
    } else if is_disk_image_extension(ext) {
        Some("Disk Image")
    } else if is_font_extension(ext) {
        Some("Font")
    } else if is_code_extension(ext) {
        Some("Code")
    } else if is_archive_extension(ext) {
        Some("Archive")
    } else if is_presentation_extension(ext) {
        Some("Presentation")
    } else if is_spreadsheet_extension(ext) {
        Some("Spreadsheet")
    } else if is_document_extension(ext) {
        Some("Document")
    } else if is_audio_extension(ext) {
        Some("Audio")
    } else if is_video_extension(ext) {
        Some("Video")
    } else if is_image_extension(ext) {
        Some("Image")
    } else {
        None
    }
}
/// The character sequences of a list of strings.
pub open spec fn views_of(list: Seq<&str>) -> Seq<Seq<char>> {
    list.map_values(|s: &str| s@)
}

/// Whether `ext` is one of the strings in `list`.
fn listed(list: &[&str], ext: &str) -> (r: bool)
    ensures
        r == views_of(list@).contains(ext@),
{
    let mut i: usize = 0;
    while i < list.len()
        invariant
            i <= list@.len(),
            forall|j: int| 0 <= j < i ==> list@[j]@ != ext@,
        decreases list@.len() - i,
    {
        if str_eq(list[i], ext) {
            assert(views_of(list@)[i as int] == ext@);
            return true;
        }
        i += 1;
    }
    assert forall|j: int| 0 <= j < views_of(list@).len() implies views_of(list@)[j] != ext@ by {
        assert(list@[j]@ != ext@);
    }
    false
}

/// The category of a lower-cased extension: "no_extension" for an empty one,
/// the file type that the table gives, or else the extension itself.
pub open spec fn spec_categorize_normalized(normalized: Seq<char>) -> Seq<char> {
    if normalized.len() == 0 {
        "no_extension"@
    } else {
        match spec_file_type_of(normalized) {
            Some(file_type) => file_type,
            None => normalized,
        }
    }
}

/// The category of an optional raw extension, compared without regard to case.
pub open spec fn spec_categorize_extension(extension: Option<Seq<char>>) -> Seq<char> {
    match extension {
        None => "no_extension"@,
        Some(raw) => spec_categorize_normalized(lowercase_of(raw)),
    }
}

/// The extension of a path, trimmed of white space, or none where that
/// leaves nothing.
pub open spec fn spec_trimmed_extension(path: Seq<char>) -> Option<Seq<char>> {
    match spec_extension(path) {
        None => None,
        Some(e) => if trimmed_of(e).len() == 0 {
            None
        } else {
            Some(trimmed_of(e))
        },
    }
}

/// The category of an already lower-cased extension.
pub fn categorize_normalized(normalized: &str) -> (r: String)
    ensures
        r@ == spec_categorize_normalized(normalized@),
{
    if normalized.is_empty() {
        return String::from_str("no_extension");
    }
    match file_type_of(normalized) {
        Some(file_type) => String::from_str(file_type),
        None => String::from_str(normalized),
    }
}

/// The category of an optional extension: "no_extension" when there is none
/// or it is empty once lower-cased, else the file type that the table gives
/// the lower-cased extension, or else that lower-cased extension.
pub fn categorize_extension(extension: Option<&str>) -> (r: String)
    ensures
        r@ == spec_categorize_extension(
            match extension {
                Some(raw) => Some(raw@),
                None => None,
            },
        ),
{
    match extension {
        None => String::from_str("no_extension"),
        Some(raw) => {
            let normalized = to_lowercase(raw);
            categorize_normalized(normalized.as_str())
        },
    }
}

/// The category of the file at `path`, from its extension with surrounding
/// white space trimmed.
pub fn categorize_path(path: &str) -> (r: String)
    ensures
        r@ == spec_categorize_extension(spec_trimmed_extension(path@)),
{
    match extension(path) {
        None => categorize_extension(None),
        Some(e) => {
            let trimmed = trim(e.as_str());
            if trimmed.is_empty() {
                categorize_extension(None)
            } else {
                categorize_extension(Some(trimmed))
            }
        },
    }
}

/// Whether a category is one of the named file types of the table.
pub fn is_known_file_type(category: &str) -> (r: bool)
    ensures
        r == known_file_types().contains(category@),
{
    let list: [&str; 11] = [
        "Image",
        "Video",
        "Audio",
        "Document",
        "Spreadsheet",
        "Presentation",
        "Archive",
        "Code",
        "Font",
        "Disk Image",
        "Application",
    ];
    proof {
        assert(views_of(list@) =~= known_file_types());
    }
    listed(&list, category)
}

} // verus!
