//! Voice-note framing for outbound audio.
use vstd::prelude::*;

use crate::text::{
    ascii_lower, law_trimming_leaves_the_text, law_white_space, str_eq, to_ascii_lower, trim, trimmed,
};

verus! {

/// Whether audio goes out as a native voice note; it does unless the caller
/// says otherwise.
pub fn wants_voice_note(voice_note: Option<bool>) -> (r: bool)
    ensures
        r == (voice_note != Some(false)),
{
    match voice_note {
        Some(b) => b,
        None => true,
    }
}

/// The mimetype stamped on outgoing audio: a bare `audio/ogg` voice note names
/// its codec; anything else is passed through.
pub open spec fn audio_mimetype(mime: Seq<char>, ptt: bool) -> Seq<char> {
    if ptt && ascii_lower(trimmed(mime)) == ascii_lower("audio/ogg"@) {
        "audio/ogg; codecs=opus"@
    } else {
        mime
    }
}

/// Mimetype to stamp on an outgoing audio message.
pub fn voice_note_mimetype(mime: &str, ptt: bool) -> (r: String)
    ensures
        r@ == audio_mimetype(mime@, ptt),
{
    if ptt && str_eq(
        to_ascii_lower(trim(mime)).as_str(),
        to_ascii_lower("audio/ogg").as_str(),
    ) {
        return "audio/ogg; codecs=opus".to_owned();
    }
    mime.to_owned()
}

/// A voice note in Ogg names its codec, however its type is written; every
/// other type, and audio that is no voice note, keeps its own.
pub proof fn law_voice_note_names_its_codec(mime: Seq<char>)
    ensures
        audio_mimetype("audio/ogg"@, true) == "audio/ogg; codecs=opus"@,
        ascii_lower(trimmed(mime)) == ascii_lower("audio/ogg"@) ==> audio_mimetype(mime, true)
            == "audio/ogg; codecs=opus"@,
        ascii_lower(trimmed(mime)) != ascii_lower("audio/ogg"@) ==> audio_mimetype(mime, true)
            == mime,
        audio_mimetype(mime, false) == mime,
{
    reveal_strlit("audio/ogg");
    let e = Seq::<char>::empty();
    law_white_space('a');
    law_white_space('g');
    law_trimming_leaves_the_text(e, "audio/ogg"@, e);
    assert(e + "audio/ogg"@ + e =~= "audio/ogg"@);
}

} // verus!
