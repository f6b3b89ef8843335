//! File names and media types, for clients that upload files.
use crate::feed;
use crate::text;
use vstd::prelude::*;

verus! {

/// The media type of a lower-case file extension; `application/octet-stream` for unknown ones.
pub open spec fn mime_of(ext: Seq<char>) -> Seq<char> {
    if ext == "png"@ {
        "image/png"@
    } else if ext == "jpg"@ || ext == "jpeg"@ {
        "image/jpeg"@
    } else if ext == "gif"@ {
        "image/gif"@
    } else if ext == "webp"@ {
        "image/webp"@
    } else if ext == "mp4"@ {
        "video/mp4"@
    } else if ext == "webm"@ {
        "video/webm"@
    } else if ext == "mov"@ {
        "video/quicktime"@
    } else if ext == "mp3"@ {
        "audio/mpeg"@
    } else if ext == "ogg"@ || ext == "opus"@ {
        "audio/ogg"@
    } else if ext == "wav"@ {
        "audio/wav"@
    } else if ext == "m4a"@ {
        "audio/mp4"@
    } else if ext == "pdf"@ {
        "application/pdf"@
    } else if ext == "md"@ || ext == "markdown"@ {
        "text/markdown"@
    } else if ext == "txt"@ {
        "text/plain"@
    } else {
        "application/octet-stream"@
    }
}

/// Best-effort media type from a file extension, in any case; a file without one has none.
pub fn guess_mime(ext: Option<&str>) -> (mime: String)
    ensures
        mime@ == mime_of(
            (match ext {
                Some(e) => e@,
                None => Seq::<char>::empty(),
            }).map_values(|c: char| feed::ascii_lower(c)),
        ),
{
    let name = match ext {
        Some(e) => e.to_ascii_lowercase(),
        None => {
            let none = String::new();
            assert(none@ =~= Seq::<char>::empty().map_values(|c: char| feed::ascii_lower(c)));
            none
        },
    };
    let mime = if text::same_text(&name, "png") {
        "image/png"
    } else if text::same_text(&name, "jpg") || text::same_text(&name, "jpeg") {
        "image/jpeg"
    } else if text::same_text(&name, "gif") {
        "image/gif"
    } else if text::same_text(&name, "webp") {
        "image/webp"
    } else if text::same_text(&name, "mp4") {
        "video/mp4"
    } else if text::same_text(&name, "webm") {
        "video/webm"
    } else if text::same_text(&name, "mov") {
        "video/quicktime"
    } else if text::same_text(&name, "mp3") {
        "audio/mpeg"
    } else if text::same_text(&name, "ogg") || text::same_text(&name, "opus") {
        "audio/ogg"
    } else if text::same_text(&name, "wav") {
        "audio/wav"
    } else if text::same_text(&name, "m4a") {
        "audio/mp4"
    } else if text::same_text(&name, "pdf") {
        "application/pdf"
    } else if text::same_text(&name, "md") || text::same_text(&name, "markdown") {
        "text/markdown"
    } else if text::same_text(&name, "txt") {
        "text/plain"
    } else {
        "application/octet-stream"
    };
    mime.to_owned()
}

/// The title of a file of that name.
pub open spec fn title_of(name: Option<Seq<char>>) -> Seq<char> {
    match name {
        Some(n) => n,
        None => "untitled"@,
    }
}

/// A file is titled with its name, and one without a name is untitled.
pub proof fn law_files_are_titled_with_their_name(name: Option<Seq<char>>)
    ensures
        name is Some ==> Some(title_of(name)) == name,
        name is None ==> title_of(name) == "untitled"@,
{
}

/// The last part of a file's path as a title; `untitled` where there is none.
pub fn file_name(name: Option<&str>) -> (title: String)
    ensures
        title@ == title_of(name.deep_view()),
{
    match name {
        Some(n) => n.to_owned(),
        None => "untitled".to_owned(),
    }
}

/// The extensions that mean each media type, and no others do; what is not known is a stream of bytes.
pub proof fn law_extensions_mean_their_types(ext: Seq<char>)
    ensures
        mime_of(ext) == "image/png"@ <==> ext == "png"@,
        mime_of(ext) == "image/jpeg"@ <==> ext == "jpg"@ || ext == "jpeg"@,
        mime_of(ext) == "image/gif"@ <==> ext == "gif"@,
        mime_of(ext) == "image/webp"@ <==> ext == "webp"@,
        mime_of(ext) == "video/mp4"@ <==> ext == "mp4"@,
        mime_of(ext) == "video/webm"@ <==> ext == "webm"@,
        mime_of(ext) == "video/quicktime"@ <==> ext == "mov"@,
        mime_of(ext) == "audio/mpeg"@ <==> ext == "mp3"@,
        mime_of(ext) == "audio/ogg"@ <==> ext == "ogg"@ || ext == "opus"@,
        mime_of(ext) == "audio/wav"@ <==> ext == "wav"@,
        mime_of(ext) == "audio/mp4"@ <==> ext == "m4a"@,
        mime_of(ext) == "application/pdf"@ <==> ext == "pdf"@,
        mime_of(ext) == "text/markdown"@ <==> ext == "md"@ || ext == "markdown"@,
        mime_of(ext) == "text/plain"@ <==> ext == "txt"@,
{
    lemma_types_differ();
    lemma_extensions_differ();
}

/// Three characters tell a text from others: its length is fourth.
spec fn mark_of(s: Seq<char>) -> (nat, char, char, char) {
    (s.len(), s[0], s[1], s[s.len() - 1])
}

proof fn lemma_extensions_differ()
    ensures
        mark_of("png"@) == (3nat, 'p', 'n', 'g'),
        mark_of("jpg"@) == (3nat, 'j', 'p', 'g'),
        mark_of("jpeg"@) == (4nat, 'j', 'p', 'g'),
        mark_of("gif"@) == (3nat, 'g', 'i', 'f'),
        mark_of("webp"@) == (4nat, 'w', 'e', 'p'),
        mark_of("mp4"@) == (3nat, 'm', 'p', '4'),
        mark_of("webm"@) == (4nat, 'w', 'e', 'm'),
        mark_of("mov"@) == (3nat, 'm', 'o', 'v'),
        mark_of("mp3"@) == (3nat, 'm', 'p', '3'),
        mark_of("ogg"@) == (3nat, 'o', 'g', 'g'),
        mark_of("opus"@) == (4nat, 'o', 'p', 's'),
        mark_of("wav"@) == (3nat, 'w', 'a', 'v'),
        mark_of("m4a"@) == (3nat, 'm', '4', 'a'),
        mark_of("pdf"@) == (3nat, 'p', 'd', 'f'),
        mark_of("md"@) == (2nat, 'm', 'd', 'd'),
        mark_of("markdown"@) == (8nat, 'm', 'a', 'n'),
        mark_of("txt"@) == (3nat, 't', 'x', 't'),
{
    reveal_strlit("png");
    reveal_strlit("jpg");
    reveal_strlit("jpeg");
    reveal_strlit("gif");
    reveal_strlit("webp");
    reveal_strlit("mp4");
    reveal_strlit("webm");
    reveal_strlit("mov");
    reveal_strlit("mp3");
    reveal_strlit("ogg");
    reveal_strlit("opus");
    reveal_strlit("wav");
    reveal_strlit("m4a");
    reveal_strlit("pdf");
    reveal_strlit("md");
    reveal_strlit("markdown");
    reveal_strlit("txt");
}

/// The length, the first and the last character of a media type, and the one behind its slash.
spec fn type_mark(s: Seq<char>) -> (nat, char, char, char) {
    (s.len(), s[0], s[s.len() - 1], s[6])
}

proof fn lemma_types_differ()
    ensures
        type_mark("image/png"@) == (9nat, 'i', 'g', 'p'),
        type_mark("image/jpeg"@) == (10nat, 'i', 'g', 'j'),
        type_mark("image/gif"@) == (9nat, 'i', 'f', 'g'),
        type_mark("image/webp"@) == (10nat, 'i', 'p', 'w'),
        type_mark("video/mp4"@) == (9nat, 'v', '4', 'm'),
        type_mark("video/webm"@) == (10nat, 'v', 'm', 'w'),
        type_mark("video/quicktime"@) == (15nat, 'v', 'e', 'q'),
        type_mark("audio/mpeg"@) == (10nat, 'a', 'g', 'm'),
        type_mark("audio/ogg"@) == (9nat, 'a', 'g', 'o'),
        type_mark("audio/wav"@) == (9nat, 'a', 'v', 'w'),
        type_mark("audio/mp4"@) == (9nat, 'a', '4', 'm'),
        type_mark("application/pdf"@) == (15nat, 'a', 'f', 'a'),
        type_mark("text/markdown"@) == (13nat, 't', 'n', 'a'),
        type_mark("text/plain"@) == (10nat, 't', 'n', 'l'),
        type_mark("application/octet-stream"@) == (24nat, 'a', 'm', 'a'),
{
    reveal_strlit("image/png");
    reveal_strlit("image/jpeg");
    reveal_strlit("image/gif");
    reveal_strlit("image/webp");
    reveal_strlit("video/mp4");
    reveal_strlit("video/webm");
    reveal_strlit("video/quicktime");
    reveal_strlit("audio/mpeg");
    reveal_strlit("audio/ogg");
    reveal_strlit("audio/wav");
    reveal_strlit("audio/mp4");
    reveal_strlit("application/pdf");
    reveal_strlit("text/markdown");
    reveal_strlit("text/plain");
    reveal_strlit("application/octet-stream");
}

} // verus!
