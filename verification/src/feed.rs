//! Structured feed documents, as the external parser hands them over:
//! channel metadata and an ordered list of items with optional title, link,
//! author, description, content, publish date and media attachments.
//!
//! Publish dates are carried as unix seconds; turning a textual date into
//! that number is the date parser's concern, outside this library.

use vstd::prelude::*;
use vstd::utf8::encode_utf8;

verus! {

/// A parsed feed document.
#[derive(Debug, Clone)]
pub struct Feed {
    pub channel: Channel,
}

/// Channel metadata and the items of one document.
#[derive(Debug, Clone)]
pub struct Channel {
    pub title: String,
    pub link: String,
    pub description: String,
    pub language: Option<String>,
    pub items: Vec<Item>,
}

/// One item of a feed document.
#[derive(Debug, Clone)]
pub struct Item {
    pub title: Option<String>,
    pub link: Option<String>,
    pub description: Option<String>,
    pub author: Option<String>,
    pub enclosure: Option<Enclosure>,
    pub guid: Option<Guid>,
    pub pub_date: Option<i64>,
    pub content: Option<String>,
    pub content_encoded: Option<String>,
    pub media_content: Vec<MediaContent>,
}

/// An item's stable identifier text, as the document gives it.
#[derive(Debug, Clone)]
pub struct Guid {
    pub value: String,
    pub is_perma_link: bool,
}

/// An attached resource of an item.
#[derive(Debug, Clone)]
pub struct Enclosure {
    pub url: String,
    pub length: u32,
    pub mime_type: String,
}

/// A media attachment of an item.
#[derive(Debug, Clone)]
pub struct MediaContent {
    pub url: String,
    pub mime_type: Option<String>,
    pub medium: Option<ContentMedium>,
}

/// The declared kind of a media attachment.
#[derive(Debug, Clone, Copy, PartialEq, Eq, Structural)]
pub enum ContentMedium {
    Image,
    Audio,
    Video,
    Document,
    Executable,
}

/// Failure to read a `ContentMedium` from text.
#[derive(Debug, Clone, Copy, PartialEq, Eq, Structural)]
pub struct ParseError;

// ---------------------------------------------------------------------------
// Views
// ---------------------------------------------------------------------------
pub struct GuidV {
    pub value: Seq<char>,
    pub is_perma_link: bool,
}

pub struct EnclosureV {
    pub url: Seq<char>,
    pub length: u32,
    pub mime_type: Seq<char>,
}

pub struct MediaContentV {
    pub url: Seq<char>,
    pub mime_type: Option<Seq<char>>,
    pub medium: Option<ContentMedium>,
}

pub struct ItemV {
    pub title: Option<Seq<char>>,
    pub link: Option<Seq<char>>,
    pub description: Option<Seq<char>>,
    pub author: Option<Seq<char>>,
    pub enclosure: Option<EnclosureV>,
    pub guid: Option<GuidV>,
    pub pub_date: Option<i64>,
    pub content: Option<Seq<char>>,
    pub content_encoded: Option<Seq<char>>,
    pub media_content: Seq<MediaContentV>,
}

pub struct ChannelV {
    pub title: Seq<char>,
    pub link: Seq<char>,
    pub description: Seq<char>,
    pub language: Option<Seq<char>>,
    pub items: Seq<ItemV>,
}

pub struct FeedV {
    pub channel: ChannelV,
}

impl View for Channel {
    type V = ChannelV;

    open spec fn view(&self) -> ChannelV {
        ChannelV {
            title: self.title@,
            link: self.link@,
            description: self.description@,
            language: crate::codec::opt_str_view(self.language),
            items: self.items@.map_values(|i: Item| i@),
        }
    }
}

impl View for Feed {
    type V = FeedV;

    open spec fn view(&self) -> FeedV {
        FeedV { channel: self.channel@ }
    }
}

impl View for Guid {
    type V = GuidV;

    open spec fn view(&self) -> GuidV {
        GuidV { value: self.value@, is_perma_link: self.is_perma_link }
    }
}

impl View for Enclosure {
    type V = EnclosureV;

    open spec fn view(&self) -> EnclosureV {
        EnclosureV { url: self.url@, length: self.length, mime_type: self.mime_type@ }
    }
}

impl View for MediaContent {
    type V = MediaContentV;

    open spec fn view(&self) -> MediaContentV {
        MediaContentV {
            url: self.url@,
            mime_type: crate::codec::opt_str_view(self.mime_type),
            medium: self.medium,
        }
    }
}

impl View for Item {
    type V = ItemV;

    open spec fn view(&self) -> ItemV {
        ItemV {
            title: crate::codec::opt_str_view(self.title),
            link: crate::codec::opt_str_view(self.link),
            description: crate::codec::opt_str_view(self.description),
            author: crate::codec::opt_str_view(self.author),
            enclosure: match self.enclosure {
                Some(e) => Some(e@),
                None => None,
            },
            guid: match self.guid {
                Some(g) => Some(g@),
                None => None,
            },
            pub_date: self.pub_date,
            content: crate::codec::opt_str_view(self.content),
            content_encoded: crate::codec::opt_str_view(self.content_encoded),
            media_content: self.media_content@.map_values(|m: MediaContent| m@),
        }
    }
}

// ---------------------------------------------------------------------------
// Text helpers
// ---------------------------------------------------------------------------
/// Whether two texts are equal, decided over their UTF-8 bytes.
pub fn str_eq(a: &str, b: &str) -> (r: bool)
    ensures
        r == (a@ == b@),
{
    proof {
        vstd::utf8::encode_utf8_decode_utf8(a@);
        vstd::utf8::encode_utf8_decode_utf8(b@);
    }
    let ab = a.as_bytes();
    let bb = b.as_bytes();
    if ab.len() != bb.len() {
        return false;
    }
    let mut i: usize = 0;
    while i < ab.len()
        invariant
            i <= ab@.len(),
            ab@.len() == bb@.len(),
            ab@ == encode_utf8(a@),
            bb@ == encode_utf8(b@),
            forall|j: int| 0 <= j < i ==> ab@[j] == bb@[j],
            vstd::utf8::decode_utf8(encode_utf8(a@)) == a@,
            vstd::utf8::decode_utf8(encode_utf8(b@)) == b@,
        decreases ab@.len() - i,
    {
        if ab[i] != bb[i] {
            return false;
        }
        i = i + 1;
    }
    proof {
        assert(encode_utf8(a@) =~= encode_utf8(b@));
    }
    true
}

/// Whether the UTF-8 encoding of `s` begins with that of `p`.
pub open spec fn spec_starts_with(s: Seq<char>, p: Seq<char>) -> bool {
    encode_utf8(s).len() >= encode_utf8(p).len() && encode_utf8(s).subrange(
        0,
        encode_utf8(p).len() as int,
    ) == encode_utf8(p)
}

/// Whether the text `s` starts with the text `p`, decided over UTF-8 bytes.
pub fn str_starts_with(s: &str, p: &str) -> (r: bool)
    ensures
        r == spec_starts_with(s@, p@),
{
    let sb = s.as_bytes();
    let pb = p.as_bytes();
    if sb.len() < pb.len() {
        return false;
    }
    let mut i: usize = 0;
    while i < pb.len()
        invariant
            i <= pb@.len(),
            pb@.len() <= sb@.len(),
            sb@ == encode_utf8(s@),
            pb@ == encode_utf8(p@),
            forall|j: int| 0 <= j < i ==> sb@[j] == pb@[j],
        decreases pb@.len() - i,
    {
        if sb[i] != pb[i] {
            assert(!spec_starts_with(s@, p@)) by {
                assert(encode_utf8(s@).subrange(0, encode_utf8(p@).len() as int)[i as int]
                    != encode_utf8(p@)[i as int]);
            }
            return false;
        }
        i = i + 1;
    }
    proof {
        assert(encode_utf8(s@).subrange(0, encode_utf8(p@).len() as int) =~= encode_utf8(p@));
    }
    true
}

// ---------------------------------------------------------------------------
// ContentMedium text forms
// ---------------------------------------------------------------------------
/// The medium named by a text, if any.
pub open spec fn spec_medium_of_text(s: Seq<char>) -> Option<ContentMedium> {
    if s == "image"@ {
        Some(ContentMedium::Image)
    } else if s == "audio"@ {
        Some(ContentMedium::Audio)
    } else if s == "video"@ {
        Some(ContentMedium::Video)
    } else if s == "document"@ {
        Some(ContentMedium::Document)
    } else if s == "executable"@ {
        Some(ContentMedium::Executable)
    } else {
        None
    }
}

/// The text form of a medium.
pub open spec fn spec_medium_text(m: ContentMedium) -> Seq<char> {
    match m {
        ContentMedium::Image => "image"@,
        ContentMedium::Audio => "audio"@,
        ContentMedium::Video => "video"@,
        ContentMedium::Document => "document"@,
        ContentMedium::Executable => "executable"@,
    }
}

impl ContentMedium {
    /// Reads a medium from its text form; any other text is rejected.
    pub fn from_str(s: &str) -> (r: Result<ContentMedium, ParseError>)
        ensures
            match r {
                Ok(m) => spec_medium_of_text(s@) == Some(m),
                Err(_) => spec_medium_of_text(s@) is None,
            },
    {
        if str_eq(s, "image") {
            Ok(ContentMedium::Image)
        } else if str_eq(s, "audio") {
            Ok(ContentMedium::Audio)
        } else if str_eq(s, "video") {
            Ok(ContentMedium::Video)
        } else if str_eq(s, "document") {
            Ok(ContentMedium::Document)
        } else if str_eq(s, "executable") {
            Ok(ContentMedium::Executable)
        } else {
            Err(ParseError)
        }
    }

    /// The text form of this medium.
    pub fn text(&self) -> (r: String)
        ensures
            r@ == spec_medium_text(*self),
    {
        match self {
            ContentMedium::Image => String::from_str("image"),
            ContentMedium::Audio => String::from_str("audio"),
            ContentMedium::Video => String::from_str("video"),
            ContentMedium::Document => String::from_str("document"),
            ContentMedium::Executable => String::from_str("executable"),
        }
    }
}

} // verus!
