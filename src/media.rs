//! Kinds of media attached to messages, and their labels.

use vstd::prelude::*;
use crate::text::{owned, push_all, push_char, same_text};

verus! {

/// Type of media.
#[derive(Clone, Copy, Debug, PartialEq, Eq, Structural)]
pub enum MediaType {
    /// Audio.
    Audio,
    /// Image (JPEG, PNG, WebP).
    Image,
    /// Video.
    Video,
    /// Sticker (WebP, animated or static).
    Sticker,
    /// Document.
    Document,
}

impl Default for MediaType {
    fn default() -> (r: MediaType)
        ensures
            r == MediaType::Image,
    {
        MediaType::Image
    }
}

/// The MIME type guessed for a kind of media.
pub open spec fn mime_of(t: MediaType) -> Seq<char> {
    match t {
        MediaType::Audio => "audio/ogg"@,
        MediaType::Image => "image/jpeg"@,
        MediaType::Video => "video/mp4"@,
        MediaType::Sticker => "image/webp"@,
        MediaType::Document => "application/pdf"@,
    }
}

/// The symbol that opens the label of a kind of media.
pub open spec fn icon_of(t: MediaType) -> Seq<char> {
    match t {
        MediaType::Audio => "\u{1F3A4}"@,
        MediaType::Image => "\u{1F4F7}"@,
        MediaType::Video => "\u{1F3A5}"@,
        MediaType::Sticker => "\u{1F3AD}"@,
        MediaType::Document => "\u{1F4C4}"@,
    }
}

/// The untranslated caption of a kind of media.
pub open spec fn caption_of(t: MediaType) -> Seq<char> {
    match t {
        MediaType::Audio => "Voice message"@,
        MediaType::Image => "Photo"@,
        MediaType::Video => "Video"@,
        MediaType::Sticker => "Sticker"@,
        MediaType::Document => "Document"@,
    }
}

/// The kind of media a lower-case name stands for; anything unknown is an image.
pub open spec fn kind_named(name: Seq<char>) -> MediaType {
    if name == "audio"@ {
        MediaType::Audio
    } else if name == "video"@ {
        MediaType::Video
    } else if name == "sticker"@ {
        MediaType::Sticker
    } else if name == "document"@ {
        MediaType::Document
    } else {
        MediaType::Image
    }
}

/// The lower-case form of a text, as `str::to_lowercase` gives it.
pub uninterp spec fn lower_of(s: Seq<char>) -> Seq<char>;

/// Relies on `str::to_lowercase`: the result depends on the characters alone.
#[verifier::external_body]
fn lowercase(s: &str) -> (r: String)
    ensures
        r@ == lower_of(s@),
{
    s.to_lowercase()
}

/// Relies on gettextrs's `gettext`: the translation of a message in the
/// current locale. It depends on the environment, so nothing is stated.
/// gettextrs panics on a message holding a NUL character (and on a catalogue
/// that is not UTF-8).
#[verifier::external_body]
pub(crate) fn translate(msgid: &str) -> (r: String)
    requires
        !msgid@.contains('\0'),
{
    gettextrs::gettext(msgid)
}

impl MediaType {
    fn icon(self) -> (r: &'static str)
        ensures
            r@ == icon_of(self),
    {
        match self {
            MediaType::Audio => "\u{1F3A4}",
            MediaType::Image => "\u{1F4F7}",
            MediaType::Video => "\u{1F3A5}",
            MediaType::Sticker => "\u{1F3AD}",
            MediaType::Document => "\u{1F4C4}",
        }
    }

    /// The untranslated caption.
    pub fn caption(self) -> (r: &'static str)
        ensures
            r@ == caption_of(self),
    {
        match self {
            MediaType::Audio => "Voice message",
            MediaType::Image => "Photo",
            MediaType::Video => "Video",
            MediaType::Sticker => "Sticker",
            MediaType::Document => "Document",
        }
    }

    /// The label made of the symbol and a given (translated) caption.
    pub fn labelled(self, caption: &str) -> (r: String)
        ensures
            r@ == icon_of(self) + seq![' '] + caption@,
    {
        let mut r = owned(self.icon());
        push_char(&mut r, ' ');
        push_all(&mut r, caption);
        r
    }

    /// Gets a display label: the symbol, a space, and the caption translated
    /// to the current locale.
    pub fn display_label(self) -> (r: String)
        ensures
            exists|t: Seq<char>| r@ == icon_of(self) + seq![' '] + t,
    {
        proof {
            reveal_strlit("Voice message");
            reveal_strlit("Photo");
            reveal_strlit("Video");
            reveal_strlit("Sticker");
            reveal_strlit("Document");
        }
        let translated = translate(self.caption());
        self.labelled(translated.as_str())
    }

    /// Guess the mime type from the media.
    pub fn guess_mime_type(self) -> (r: String)
        ensures
            r@ == mime_of(self),
    {
        match self {
            MediaType::Audio => owned("audio/ogg"),
            MediaType::Image => owned("image/jpeg"),
            MediaType::Video => owned("video/mp4"),
            MediaType::Sticker => owned("image/webp"),
            MediaType::Document => owned("application/pdf"),
        }
    }

    /// The kind of media a lower-case name stands for.
    pub fn from_lowercase(name: &str) -> (r: MediaType)
        ensures
            r == kind_named(name@),
    {
        if same_text(name, "audio") {
            MediaType::Audio
        } else if same_text(name, "video") {
            MediaType::Video
        } else if same_text(name, "sticker") {
            MediaType::Sticker
        } else if same_text(name, "document") {
            MediaType::Document
        } else {
            MediaType::Image
        }
    }

    /// The kind of media a name stands for, in any case.
    pub fn from_name(name: &str) -> (r: MediaType)
        ensures
            r == kind_named(lower_of(name@)),
    {
        let lower = lowercase(name);
        Self::from_lowercase(lower.as_str())
    }
}

} // verus!
