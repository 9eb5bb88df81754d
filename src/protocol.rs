//! Graphics-protocol commands as plain values, and their escape-coded wire form.
//!
//! A command has an envelope (the image id and, for image data, the payload)
//! and one of four actions. Commands with pixel data are sent in chunks; control
//! commands fit in one escape sequence. Every command also says how quietly the
//! terminal should answer it. The wire form itself comes from the `kitty_image`
//! crate.
use vstd::prelude::*;
use kitty_image::{
    ActionAnimationFrameControl, ActionAnimationFrameLoading, ActionDelete,
    ActionTransmission, Command as WireCommand, DeleteTarget,
    Frame, LoopMode, Placement, WrappedCommand, ID,
};
use kitty_image::Action::{
    AnimationFrameControl as WireFrameControl, AnimationFrameLoading as WireFrameLoading,
    Delete as WireDelete, TransmitAndDisplay as WireTransmit,
};
use kitty_image::CompositionMode::{AlphaBlend as WireBlend, Overwrite as WireOverwrite};
use kitty_image::Quietness::{None as WireVerbose, SuppressAll as WireSilent, SupressOk as WireErrorsOnly};
use std::num::NonZeroU32;
use self::Composition::{AlphaBlend, Overwrite};
use self::ControlAction::{AnimationFrameControl, DeleteAll, DeleteImage};
use self::ImageAction::{AnimationFrameLoading, TransmitAndDisplay};
use self::Quietness::{SuppressAll, SuppressOk, Verbose};

verus! {

/// Which answers the terminal sends back for a command.
#[derive(Clone, Copy, Debug, PartialEq, Eq, Structural)]
pub enum Quietness {
    /// Acknowledgements and errors.
    Verbose,
    /// Errors only.
    SuppressOk,
    /// Nothing.
    SuppressAll,
}

/// How a loaded animation frame combines with the frame it is based on.
#[derive(Clone, Copy, Debug, PartialEq, Eq, Structural)]
pub enum Composition {
    AlphaBlend,
    Overwrite,
}

/// Actions that carry pixel data.
#[derive(Clone, Copy, Debug, PartialEq, Eq, Structural)]
pub enum ImageAction {
    /// Transmit a `width` x `height` image of 32-bit RGBA pixels inside the
    /// command itself, uncompressed, and display it.
    TransmitAndDisplay { width: u32, height: u32 },
    /// Load pixel data as a new animation frame based on frame `frame_number`
    /// (0: none), shown `gap` milliseconds before the next one. `kitty_image`
    /// does not write the composition mode itself: for `Overwrite` it writes
    /// the gap a second time, under the key of the mode (`X=`).
    AnimationFrameLoading { frame_number: u32, gap: i32, composition: Composition },
}

/// Actions without pixel data.
#[derive(Clone, Copy, Debug, PartialEq, Eq, Structural)]
pub enum ControlAction {
    /// Make frame `frame_number` (0: none) current and wait `gap` milliseconds
    /// before the next. A non-zero `loops` is written as the loop mode
    /// `loops - 1` (`kitty_image` sends a finite count less one; 0 there means
    /// "ignore"); `loops` of 0 leaves the loop mode unset.
    AnimationFrameControl { frame_number: u32, gap: i32, loops: u32 },
    /// Delete every image and free its data.
    DeleteAll,
    /// Delete the image with the command's id and free its data.
    DeleteImage,
}

/// A command with pixel data; an `id` of 0 sends none.
pub struct ImageCommand {
    pub action: ImageAction,
    pub id: u32,
    pub quietness: Quietness,
    pub payload: Vec<u8>,
}

/// A command without pixel data; an `id` of 0 sends none.
#[derive(Clone, Copy, Debug, PartialEq, Eq, Structural)]
pub struct ControlCommand {
    pub action: ControlAction,
    pub id: u32,
    pub quietness: Quietness,
}

/// The bytes that `kitty_image` writes for an image command sent in chunks.
pub uninterp spec fn chunked_wire(
    action: ImageAction,
    id: u32,
    quietness: Quietness,
    payload: Seq<u8>,
) -> Seq<u8>;

/// The bytes of an ASCII string.
pub open spec fn ascii(s: &str) -> Seq<u8> {
    s@.map_values(|c: char| (c as u32) as u8)
}

/// The decimal digits of `n`, as `Display` writes them.
pub open spec fn digits(n: nat) -> Seq<u8>
    decreases n,
{
    if n < 10 {
        seq![(0x30 + n) as u8]
    } else {
        digits(n / 10) + seq![(0x30 + n % 10) as u8]
    }
}

/// `v` in decimal, with a leading `-` when negative.
pub open spec fn signed_digits(v: int) -> Seq<u8> {
    if v < 0 {
        ascii("-") + digits((-v) as nat)
    } else {
        digits(v as nat)
    }
}

/// `key=value,` when `value` is not 0, else nothing.
pub open spec fn optional_key(key: &str, value: nat) -> Seq<u8> {
    if value == 0 {
        Seq::empty()
    } else {
        ascii(key) + digits(value) + ascii(",")
    }
}

pub open spec fn quietness_key(quietness: Quietness) -> Seq<u8> {
    match quietness {
        Quietness::Verbose => Seq::empty(),
        Quietness::SuppressOk => ascii("q=1,"),
        Quietness::SuppressAll => ascii("q=2,"),
    }
}

pub open spec fn control_action_keys(action: ControlAction) -> Seq<u8> {
    match action {
        ControlAction::AnimationFrameControl { frame_number, gap, loops } => ascii("a=a,s=1,z=")
            + signed_digits(gap as int) + ascii(",") + optional_key("c=", frame_number as nat)
            + if loops == 0 {
            Seq::empty()
        } else {
            ascii("v=") + digits((loops - 1) as nat) + ascii(",")
        },
        ControlAction::DeleteAll => ascii("a=d,d=A,"),
        ControlAction::DeleteImage => ascii("a=d,d=I,"),
    }
}

/// The escape sequence of a control command as `kitty_image` writes it: the
/// quietness, the action's keys, the id when it is not 0, no more data to
/// follow, and an empty payload.
pub open spec fn control_wire(action: ControlAction, id: u32, quietness: Quietness) -> Seq<u8> {
    ascii("\x1b_G") + quietness_key(quietness) + control_action_keys(action) + optional_key(
        "i=",
        id as nat,
    ) + ascii("m=0;\x1b\\")
}

/// Relies on `kitty_image::WrappedCommand::send_chunked`, writing into a byte
/// vector: the bytes depend on the command alone.
#[verifier::external_body]
fn send_chunked(cmd: &ImageCommand) -> (bytes: Vec<u8>)
    ensures
        bytes@ == chunked_wire(cmd.action, cmd.id, cmd.quietness, cmd.payload@),
{
    let action = match cmd.action {
        TransmitAndDisplay { width, height } => WireTransmit(ActionTransmission { width, height, ..Default::default() }, Default::default()),
        AnimationFrameLoading { frame_number, gap, composition } => WireFrameLoading(ActionAnimationFrameLoading { frame_number: NonZeroU32::new(frame_number).map(Frame), gap, composition_mode: match composition { AlphaBlend => WireBlend, Overwrite => WireOverwrite }, ..Default::default() }),
    };
    let quietness = match cmd.quietness { Verbose => WireVerbose, SuppressOk => WireErrorsOnly, SuppressAll => WireSilent };
    let command = WireCommand { action, quietness, id: NonZeroU32::new(cmd.id).map(ID), m: false, payload: cmd.payload[..].into() };
    let mut bytes = Vec::new();
    let _ = WrappedCommand::new(command).send_chunked(&mut bytes);
    bytes
}

/// Relies on `Display for kitty_image::WrappedCommand` and `Display for
/// kitty_image::Command`, with the action's `Display` and an empty payload.
#[verifier::external_body]
fn escape_wrap(cmd: &ControlCommand) -> (bytes: Vec<u8>)
    ensures
        bytes@ == control_wire(cmd.action, cmd.id, cmd.quietness),
{
    let action = match cmd.action {
        AnimationFrameControl { frame_number, gap, loops } => WireFrameControl(ActionAnimationFrameControl { frame: NonZeroU32::new(frame_number).map(Frame), gap, loop_mode: NonZeroU32::new(loops).map(LoopMode::Finite), ..Default::default() }),
        DeleteAll => WireDelete(ActionDelete { hard: true, target: DeleteTarget::Placements }),
        DeleteImage => WireDelete(ActionDelete { hard: true, target: DeleteTarget::ID { placement: Placement(None) } }),
    };
    let quietness = match cmd.quietness { Verbose => WireVerbose, SuppressOk => WireErrorsOnly, SuppressAll => WireSilent };
    let command = WireCommand { action, quietness, id: NonZeroU32::new(cmd.id).map(ID), m: false, payload: Default::default() };
    format!("{}", WrappedCommand::new(command)).into_bytes()
}

/// A command of either kind.
pub enum Command {
    Image(ImageCommand),
    Control(ControlCommand),
}

/// The wire form of a command.
pub open spec fn wire(cmd: &Command) -> Seq<u8> {
    match cmd {
        Command::Image(c) => chunked_wire(c.action, c.id, c.quietness, c.payload@),
        Command::Control(c) => control_wire(c.action, c.id, c.quietness),
    }
}

/// Escape-codes a command: commands with pixel data in chunks, control commands
/// as one escape sequence.
pub fn encode(cmd: &Command) -> (bytes: Vec<u8>)
    ensures
        bytes@ == wire(cmd),
{
    match cmd {
        Command::Image(c) => send_chunked(c),
        Command::Control(c) => escape_wrap(c),
    }
}

} // verus!
