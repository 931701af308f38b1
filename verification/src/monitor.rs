//! Classification of media registry notifications.
//!
//! The media-routing daemon reports every shared object it adds or
//! removes.  Only stream nodes matter here: their media-class property
//! says whether the node captures the screen or the microphone, and
//! everything else is ignored.

use vstd::prelude::*;
use crate::aggregator::Message;
use crate::text::str_eq;

verus! {

/// The view of an optional string slice.
pub open spec fn opt_view(o: Option<&str>) -> Option<Seq<char>> {
    match o {
        Some(s) => Some(s@),
        None => None,
    }
}

/// The event a registry global-add notification stands for: a stream
/// node capturing video is a screen share, one capturing audio is a
/// microphone, and any other object or media class is ignored.
pub open spec fn spec_classify(
    object_type: Seq<char>,
    media_class: Option<Seq<char>>,
    id: u32,
) -> Option<Message> {
    if object_type == "PipeWire:Interface:Node"@ && media_class == Some("Stream/Input/Video"@) {
        Some(Message::ScreenShareAdd(id))
    } else if object_type == "PipeWire:Interface:Node"@ && media_class == Some(
        "Stream/Input/Audio"@,
    ) {
        Some(Message::MicrophoneAdd(id))
    } else {
        None
    }
}

/// Classifies one global-add notification from the daemon's registry:
/// the object's type string, its media-class property if it carries
/// one, and its daemon-assigned identifier.
pub fn classify_global(object_type: &str, media_class: Option<&str>, id: u32) -> (r: Option<
    Message,
>)
    ensures
        r == spec_classify(object_type@, opt_view(media_class), id),
{
    match media_class {
        Some(mc) => {
            if str_eq(object_type, "PipeWire:Interface:Node") {
                if str_eq(mc, "Stream/Input/Video") {
                    Some(Message::ScreenShareAdd(id))
                } else if str_eq(mc, "Stream/Input/Audio") {
                    Some(Message::MicrophoneAdd(id))
                } else {
                    None
                }
            } else {
                None
            }
        },
        None => None,
    }
}

} // verus!
