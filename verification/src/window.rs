//! What the window shows, and where the program keeps its files.

use vstd::prelude::*;

use crate::profile::{IpProfile, ProfileView};
use crate::state::StatusTone;

verus! {

/// A colour, by its red, green and blue.
#[derive(Debug, Clone, Copy, PartialEq, Eq, Structural)]
pub struct Rgb {
    pub red: u8,
    pub green: u8,
    pub blue: u8,
}

/// The colours of a message: its background, and its text.
pub open spec fn tone_colors(tone: StatusTone) -> (Rgb, Rgb) {
    match tone {
        StatusTone::Neutral => (
            Rgb { red: 24, green: 28, blue: 38 },
            Rgb { red: 148, green: 155, blue: 175 },
        ),
        StatusTone::Success => (
            Rgb { red: 20, green: 40, blue: 36 },
            Rgb { red: 52, green: 211, blue: 153 },
        ),
        StatusTone::Danger => (
            Rgb { red: 43, green: 22, blue: 24 },
            Rgb { red: 248, green: 113, blue: 113 },
        ),
    }
}

/// The colours of a message: its background, and its text.
pub fn status_colors(tone: StatusTone) -> (r: (Rgb, Rgb))
    ensures
        r == tone_colors(tone),
{
    match tone {
        StatusTone::Neutral => (
            Rgb { red: 24, green: 28, blue: 38 },
            Rgb { red: 148, green: 155, blue: 175 },
        ),
        StatusTone::Success => (
            Rgb { red: 20, green: 40, blue: 36 },
            Rgb { red: 52, green: 211, blue: 153 },
        ),
        StatusTone::Danger => (
            Rgb { red: 43, green: 22, blue: 24 },
            Rgb { red: 248, green: 113, blue: 113 },
        ),
    }
}

/// Asks for the rights of an administrator when the program starts. Nothing is
/// left to do: the manifest of a release asks for them.
pub fn ensure_windows_elevation() {
}

/// Whether the program runs with the rights of an administrator of Windows,
/// from what the system answered; other systems do not answer.
pub fn is_windows_admin(answer: Option<i32>) -> (r: bool)
    ensures
        r == (answer is Some && answer->0 != 0),
{
    match answer {
        Some(n) => n != 0,
        None => false,
    }
}

/// Whether the program lacks the rights that it needs to change settings. Only
/// Windows asks for them.
pub fn elevation_missing(on_windows: bool, admin: bool) -> (r: bool)
    ensures
        r == (on_windows && !admin),
{
    on_windows && !admin
}

/// What is shown of the rights of the program, and how it is meant.
pub fn elevation_badge(missing: bool) -> (r: (StatusTone, &'static str))
    ensures
        missing ==> r.0 == StatusTone::Danger && r.1@ == "Not elevated"@,
        !missing ==> r.0 == StatusTone::Success && r.1@ == "Administrator"@,
{
    if missing {
        (StatusTone::Danger, "Not elevated")
    } else {
        (StatusTone::Success, "Administrator")
    }
}

/// The mask and the gateway of a profile as they are shown.
pub open spec fn profile_details_text(profile: ProfileView) -> Seq<char> {
    "mask "@ + profile.mask + "  ·  gw "@ + profile.gateway
}

/// The mask and the gateway of a profile as they are shown.
pub fn profile_details(profile: &IpProfile) -> (r: String)
    ensures
        r@ == profile_details_text(profile@),
{
    let mut r: String = "mask ".to_owned();
    r.append(&profile.mask);
    r.append("  ·  gw ");
    r.append(&profile.gateway);
    r
}

/// The directory under which the program keeps its files: the one that the
/// environment names, or else the home directory, or else the current one.
pub fn data_root<P>(from_environment: Option<P>, home: Option<P>, current: P) -> (r: P)
    ensures
        from_environment matches Some(p) ==> r == p,
        from_environment is None && home is Some ==> r == home->0,
        from_environment is None && home is None ==> r == current,
{
    match from_environment {
        Some(p) => p,
        None => match home {
            Some(p) => p,
            None => current,
        },
    }
}

/// The picture of the window: four bytes for each of its points, row by row.
#[derive(Debug, PartialEq, Eq)]
pub struct WindowIcon {
    pub rgba: Vec<u8>,
    pub width: u32,
    pub height: u32,
}

/// Why the crate image could not decode a picture.
#[verifier::external_type_specification]
#[verifier::external_body]
pub struct ExImageError(image::ImageError);

/// The bytes, width and height of the picture that `image::load_from_memory`
/// decodes, as `DynamicImage::to_rgba8` gives it; nothing where it fails.
pub uninterp spec fn decoded_picture(bytes: Seq<u8>) -> Option<(Seq<u8>, u32, u32)>;

/// Calls `image::load_from_memory`, and takes the picture apart by
/// `DynamicImage::to_rgba8`, `ImageBuffer::dimensions` and
/// `ImageBuffer::into_raw`. Claimed: whether it succeeds, and what the picture
/// then is, depends on the bytes alone, and it has four bytes for each point.
/// That holds as long as the program registers no decoding hook with that
/// crate; this library registers none.
#[verifier::external_body]
fn decode_picture(bytes: &[u8]) -> (r: Result<(Vec<u8>, u32, u32), image::ImageError>)
    ensures
        r is Ok <==> decoded_picture(bytes@) is Some,
        r matches Ok(p) ==> decoded_picture(bytes@) == Some((p.0@, p.1, p.2)) && p.0@.len() == 4
            * p.1 * p.2,
{
    let picture = image::load_from_memory(bytes)?.to_rgba8();
    let (width, height) = picture.dimensions();
    Ok((picture.into_raw(), width, height))
}

/// The picture of the window, from the bytes of its file; none if they cannot
/// be decoded.
pub fn load_window_icon(bytes: &[u8]) -> (r: Option<WindowIcon>)
    ensures
        r is Some <==> decoded_picture(bytes@) is Some,
        r matches Some(icon) ==> decoded_picture(bytes@) == Some(
            (icon.rgba@, icon.width, icon.height),
        ),
        r matches Some(icon) ==> icon.rgba@.len() == 4 * icon.width * icon.height,
{
    match decode_picture(bytes) {
        Ok((rgba, width, height)) => Some(WindowIcon { rgba, width, height }),
        Err(_) => None,
    }
}

/// What is shown of a profile has its mask and its gateway, each after its own
/// word.
pub proof fn details_show_mask_and_gateway(profile: ProfileView)
    ensures
        profile_details_text(profile) == "mask "@ + profile.mask + "  ·  gw "@ + profile.gateway,
{
}

} // verus!
