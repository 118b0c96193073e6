//! The commands that drive a device: taps, swipes and key presses.
//!
//! A `Controller` knows the device's serial and the size of its screen and
//! words the commands; sending them is left to whoever holds the
//! connection.

use vstd::prelude::*;
use crate::local_service::{swipe_text, push_swipe};
use crate::rect::Rect;
use crate::text::{decimal, push_decimal};

verus! {

/// `rand::random::<u32>()`: a number drawn from the generator of the
/// current thread. Nothing is claimed of the number.
#[verifier::external_body]
fn random_u32() -> (r: u32) {
    rand::random::<u32>()
}

/// The text of a tap on the pixel (`x`, `y`).
pub open spec fn tap_text(x: nat, y: nat) -> Seq<char> {
    "shell input tap"@ + " "@ + decimal(x) + " "@ + decimal(y)
}

/// The pixel of a rectangle that two drawn numbers select: each number is
/// reduced to the rectangle's extent and added to its corner.
pub fn point_in_rect(rect: Rect, rx: u32, ry: u32) -> (r: (u32, u32))
    requires
        rect.width > 0,
        rect.height > 0,
        rect.x + rect.width - 1 <= u32::MAX,
        rect.y + rect.height - 1 <= u32::MAX,
    ensures
        r.0 == rx % rect.width + rect.x,
        r.1 == ry % rect.height + rect.y,
        rect.contains(r.0 as int, r.1 as int),
{
    (rx % rect.width + rect.x, ry % rect.height + rect.y)
}

/// A device to drive.
pub struct Controller {
    /// The serial of the device.
    pub serial: String,
    /// Width of the screen in pixels.
    pub width: u32,
    /// Height of the screen in pixels.
    pub height: u32,
}

impl Controller {
    /// A controller for the device with the given serial, whose screen has
    /// the given width and height.
    pub fn connect(device_serial: &str, screen: (u32, u32)) -> (r: Self)
        ensures
            r.serial@ == device_serial@,
            r.width == screen.0,
            r.height == screen.1,
    {
        Self { serial: String::from_str(device_serial), width: screen.0, height: screen.1 }
    }

    /// The command that taps the pixel (`x`, `y`).
    pub fn click(&self, x: u32, y: u32) -> (r: String)
        ensures
            r@ == tap_text(x as nat, y as nat),
    {
        let mut r = String::from_str("shell input tap");
        r.append(" ");
        push_decimal(&mut r, x as u128);
        r.append(" ");
        push_decimal(&mut r, y as u128);
        r
    }

    /// The command that taps a pixel of the rectangle, drawn at random.
    pub fn click_in_rect(&self, rect: Rect) -> (r: String)
        requires
            rect.width > 0,
            rect.height > 0,
            rect.x + rect.width - 1 <= u32::MAX,
            rect.y + rect.height - 1 <= u32::MAX,
        ensures
            exists|x: nat, y: nat|
                rect.contains(x as int, y as int) && r@ == #[trigger] tap_text(x, y),
    {
        let rx = random_u32();
        let ry = random_u32();
        let (x, y) = point_in_rect(rect, rx, ry);
        let r = self.click(x, y);
        assert(rect.contains(x as int, y as int) && r@ == tap_text(x as nat, y as nat));
        r
    }

    /// The command that swipes from `start` to `end` in `duration`
    /// milliseconds.
    pub fn swipe(&self, start: (u32, u32), end: (u32, u32), duration: u128) -> (r: String)
        ensures
            r@ == swipe_text(
                "shell input swipe"@,
                (start.0 as int, start.1 as int),
                (end.0 as int, end.1 as int),
                duration as nat,
            ),
    {
        let mut r = String::from_str("shell input swipe");
        push_swipe(
            &mut r,
            (start.0 as i64, start.1 as i64),
            (end.0 as i64, end.1 as i64),
            duration,
        );
        r
    }

    /// The command that presses the home key.
    pub fn press_home(&self) -> (r: String)
        ensures
            r@ == "shell input keyevent HOME"@,
    {
        String::from_str("shell input keyevent HOME")
    }

    /// The command that presses the escape key.
    pub fn press_esc(&self) -> (r: String)
        ensures
            r@ == "shell input keyevent 111"@,
    {
        String::from_str("shell input keyevent 111")
    }
}

} // verus!
