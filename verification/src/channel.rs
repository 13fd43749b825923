//! The closed table of camera channels: the only sensors whose data can be
//! projected onto an image plane.
use vstd::prelude::*;

verus! {

/// A camera channel.
#[derive(Clone, Copy, Debug, PartialEq, Eq, Structural)]
pub enum Channel {
    Front,
    FrontZoomed,
    FrontLeft,
    FrontRight,
    Back,
    BackLeft,
    BackRight,
}

impl Channel {
    /// The channel that a raw channel name stands for. Only the seven camera
    /// names stand for one.
    pub open spec fn of(raw: Seq<char>) -> Option<Channel> {
        if raw == "CAM_FRONT"@ {
            Some(Channel::Front)
        } else if raw == "CAM_FRONT_ZOOMED"@ {
            Some(Channel::FrontZoomed)
        } else if raw == "CAM_FRONT_LEFT"@ {
            Some(Channel::FrontLeft)
        } else if raw == "CAM_FRONT_RIGHT"@ {
            Some(Channel::FrontRight)
        } else if raw == "CAM_BACK"@ {
            Some(Channel::Back)
        } else if raw == "CAM_BACK_LEFT"@ {
            Some(Channel::BackLeft)
        } else if raw == "CAM_BACK_RIGHT"@ {
            Some(Channel::BackRight)
        } else {
            None
        }
    }

    /// The canonical identifier of the channel.
    pub open spec fn id(self) -> Seq<char> {
        match self {
            Channel::Front => "cam::front"@,
            Channel::FrontZoomed => "cam::front::zoomed"@,
            Channel::FrontLeft => "cam::front::left"@,
            Channel::FrontRight => "cam::front::right"@,
            Channel::Back => "cam::back"@,
            Channel::BackLeft => "cam::back::left"@,
            Channel::BackRight => "cam::back::right"@,
        }
    }

    /// Reads a raw channel name.
    pub fn parse(raw: &str) -> (out: Option<Channel>)
        ensures
            out == Channel::of(raw@),
    {
        if same(raw, "CAM_FRONT") {
            Some(Channel::Front)
        } else if same(raw, "CAM_FRONT_ZOOMED") {
            Some(Channel::FrontZoomed)
        } else if same(raw, "CAM_FRONT_LEFT") {
            Some(Channel::FrontLeft)
        } else if same(raw, "CAM_FRONT_RIGHT") {
            Some(Channel::FrontRight)
        } else if same(raw, "CAM_BACK") {
            Some(Channel::Back)
        } else if same(raw, "CAM_BACK_LEFT") {
            Some(Channel::BackLeft)
        } else if same(raw, "CAM_BACK_RIGHT") {
            Some(Channel::BackRight)
        } else {
            None
        }
    }

    /// Writes the canonical identifier.
    pub fn name(self) -> (out: String)
        ensures
            out@ == self.id(),
    {
        match self {
            Channel::Front => "cam::front".to_owned(),
            Channel::FrontZoomed => "cam::front::zoomed".to_owned(),
            Channel::FrontLeft => "cam::front::left".to_owned(),
            Channel::FrontRight => "cam::front::right".to_owned(),
            Channel::Back => "cam::back".to_owned(),
            Channel::BackLeft => "cam::back::left".to_owned(),
            Channel::BackRight => "cam::back::right".to_owned(),
        }
    }
}

/// The canonical identifier that a raw channel name maps to, if it names a
/// camera.
pub open spec fn canonical(raw: Seq<char>) -> Option<Seq<char>> {
    match Channel::of(raw) {
        Some(c) => Some(c.id()),
        None => None,
    }
}

/// The characters of an optional string.
pub open spec fn text(s: Option<String>) -> Option<Seq<char>> {
    match s {
        Some(s) => Some(s@),
        None => None,
    }
}

/// Equality of string slices, `str::eq` of the standard library: true exactly
/// when both hold the same characters.
#[verifier::external_body]
pub(crate) fn same(a: &str, b: &str) -> (r: bool)
    ensures
        r == (a@ == b@),
{
    a == b
}

/// Maps a raw channel name to its canonical identifier; a name that is not a
/// camera's has none.
pub fn canonicalize(raw: &str) -> (out: Option<String>)
    ensures
        text(out) == canonical(raw@),
{
    match Channel::parse(raw) {
        Some(c) => Some(c.name()),
        None => None,
    }
}

} // verus!
