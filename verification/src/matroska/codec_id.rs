//! The codec registry: which codec a track's codec identifier stands for.

use crate::text::str_eq;
use vstd::prelude::*;

verus! {

/// List of codec recognized
#[derive(Debug, PartialEq, Eq, Clone, Copy, Structural)]
pub enum CodecId {
    /// The format of subtitle in DVD. It's an image based subtitle format.
    VobSub,
    /// The format of subtitle in Bluray. It's an image based subtitle format.
    Pgs,
    /// A very simple subtitle text format.
    SubRip,
    /// The text format of the web, with cues and an optional header.
    WebVTT,
    /// Advanced SubStation Alpha, a styled text format.
    Ass,
}

/// Why a codec identifier was not resolved.
#[derive(Debug)]
pub enum CodecIdFromError {
    /// The identifier is not in the table; the variant carries it.
    CodecIdNotManaged(String),
}

impl CodecIdFromError {
    /// The identifier that was refused.
    pub open spec fn refused(self) -> Seq<char> {
        match self {
            CodecIdFromError::CodecIdNotManaged(id) => id@,
        }
    }
}

/// The codec that an identifier stands for, by exact match against the table.
pub open spec fn resolve(id: Seq<char>) -> Option<CodecId> {
    if id == "S_VOBSUB"@ {
        Some(CodecId::VobSub)
    } else if id == "S_HDMV/PGS"@ {
        Some(CodecId::Pgs)
    } else if id == "S_TEXT/UTF8"@ {
        Some(CodecId::SubRip)
    } else if id == "D_WEBVTT/SUBTITLES"@ {
        Some(CodecId::WebVTT)
    } else if id == "S_TEXT/ASS"@ {
        Some(CodecId::Ass)
    } else {
        None
    }
}

impl CodecId {
    /// The identifier of this codec, as a container writes it.
    pub open spec fn id_chars(self) -> Seq<char> {
        match self {
            CodecId::VobSub => "S_VOBSUB"@,
            CodecId::Pgs => "S_HDMV/PGS"@,
            CodecId::SubRip => "S_TEXT/UTF8"@,
            CodecId::WebVTT => "D_WEBVTT/SUBTITLES"@,
            CodecId::Ass => "S_TEXT/ASS"@,
        }
    }

    /// The identifier of this codec, as a container writes it.
    #[must_use]
    pub fn id_str(&self) -> (id: &'static str)
        ensures
            id@ == self.id_chars(),
            resolve(id@) == Some(*self),
    {
        proof {
            lemma_identifier_resolves(*self);
        }
        match self {
            CodecId::VobSub => "S_VOBSUB",
            CodecId::Pgs => "S_HDMV/PGS",
            CodecId::SubRip => "S_TEXT/UTF8",
            CodecId::WebVTT => "D_WEBVTT/SUBTITLES",
            CodecId::Ass => "S_TEXT/ASS",
        }
    }

    /// Resolves a codec identifier: the codec of the table entry that equals
    /// `value`, or the error that carries `value` where no entry does.
    pub fn try_from(value: &str) -> (r: Result<CodecId, CodecIdFromError>)
        ensures
            match r {
                Ok(codec) => resolve(value@) == Some(codec),
                Err(e) => resolve(value@) is None && e.refused() == value@,
            },
    {
        if str_eq(value, "S_VOBSUB") {
            Ok(CodecId::VobSub)
        } else if str_eq(value, "S_HDMV/PGS") {
            Ok(CodecId::Pgs)
        } else if str_eq(value, "S_TEXT/UTF8") {
            Ok(CodecId::SubRip)
        } else if str_eq(value, "D_WEBVTT/SUBTITLES") {
            Ok(CodecId::WebVTT)
        } else if str_eq(value, "S_TEXT/ASS") {
            Ok(CodecId::Ass)
        } else {
            Err(CodecIdFromError::CodecIdNotManaged(value.to_owned()))
        }
    }
}

/// The five identifiers of the table differ from each other, so each codec's
/// own identifier resolves to that codec and to no other.
pub proof fn lemma_identifier_resolves(codec: CodecId)
    ensures
        resolve(codec.id_chars()) == Some(codec),
{
    reveal_strlit("S_VOBSUB");
    reveal_strlit("S_HDMV/PGS");
    reveal_strlit("S_TEXT/UTF8");
    reveal_strlit("D_WEBVTT/SUBTITLES");
    reveal_strlit("S_TEXT/ASS");
    assert("S_VOBSUB"@.len() == 8);
    assert("S_HDMV/PGS"@.len() == 10);
    assert("S_TEXT/UTF8"@.len() == 11);
    assert("D_WEBVTT/SUBTITLES"@.len() == 18);
    assert("S_TEXT/ASS"@.len() == 10);
    assert("S_HDMV/PGS"@[2] == 'H');
    assert("S_TEXT/ASS"@[2] == 'T');
}

/// Resolution is the inverse of naming: an identifier resolves to a codec
/// exactly when it is that codec's identifier.
pub proof fn lemma_resolve_exact(id: Seq<char>, codec: CodecId)
    ensures
        resolve(id) == Some(codec) <==> id == codec.id_chars(),
{
    lemma_identifier_resolves(codec);
}

} // verus!
