//! The layer surface the clock draws on and the decisions of its event
//! loop: the surface's size and whether the compositor has configured it,
//! what to do after each poll, what a line of input draws, and which edges
//! the surface is anchored to.

use crate::clock::{clock_digits_of, parse_clock_line};
use crate::draw::{BITS, CELL, DIGITS, FRAME_BYTES, ROW_BYTES};
use smithay_client_toolkit::reexports::protocols_wlr::layer_shell::v1::client::zwlr_layer_surface_v1::Anchor;
use vstd::prelude::*;

verus! {

/// Width asked of the compositor: six digits of 16 pixels.
pub const WIDTH: u32 = 96;

/// Height asked of the compositor: four bits of 16 pixels.
pub const HEIGHT: u32 = 64;

/// Bytes per ARGB8888 pixel.
pub const PIXEL_SIZE: u32 = 4;

/// Bytes of the shared-memory pool: room for two frames.
pub const STORE_SIZE: u32 = 49152;

/// The surface asked for is exactly the frame that is painted: six cells
/// wide, four high, one painted row per row of the buffer, and the pool
/// holds two such frames.
pub proof fn lemma_frame_size()
    ensures
        WIDTH == DIGITS * CELL,
        HEIGHT == BITS * CELL,
        WIDTH * PIXEL_SIZE == ROW_BYTES,
        WIDTH * HEIGHT * PIXEL_SIZE == FRAME_BYTES,
        STORE_SIZE == 2 * FRAME_BYTES,
{
}

/// The surface's size and whether the compositor has configured it.
#[derive(Clone, Copy, Debug, PartialEq, Eq, Structural)]
pub struct SurfaceState {
    pub width: u32,
    pub height: u32,
    pub configured: bool,
}

impl SurfaceState {
    /// A surface of the clock's size, not yet configured.
    pub fn new() -> (s: Self)
        ensures
            s == (SurfaceState { width: WIDTH, height: HEIGHT, configured: false }),
    {
        SurfaceState { width: WIDTH, height: HEIGHT, configured: false }
    }

    /// The compositor's configure event: the size it gives, and the surface
    /// is now configured.
    pub fn configure(&mut self, width: u32, height: u32)
        ensures
            *final(self) == (SurfaceState { width, height, configured: true }),
    {
        self.width = width;
        self.height = height;
        self.configured = true;
    }

    /// Width, height and stride (bytes per row) of the buffer to draw into.
    pub fn buffer_layout(&self) -> (r: (i32, i32, i32))
        requires
            self.width * PIXEL_SIZE <= u32::MAX,
        ensures
            r.0 == self.width as i32,
            r.1 == self.height as i32,
            r.2 == (self.width * PIXEL_SIZE) as i32,
    {
        let stride: u32 = self.width * PIXEL_SIZE;
        (self.width as i32, self.height as i32, stride as i32)
    }
}

/// What the event loop does after a poll.
#[derive(Clone, Copy, Debug, PartialEq, Eq, Structural)]
pub enum LoopAction {
    /// Read and dispatch the compositor's events.
    DispatchWayland,
    /// Read a line of input and draw it.
    ReadInput,
    /// Something woke the poll that neither source claims: do nothing.
    Nothing,
    /// The poll timed out: give up the prepared read.
    CancelRead,
    /// The poll failed.
    PollFailed,
}

/// The action for a poll that returned `poll_ret`, with the readiness of the
/// compositor's socket and of the input.
pub open spec fn loop_action_of(poll_ret: i32, wayland_ready: bool, input_ready: bool) -> LoopAction {
    if poll_ret > 0 {
        if wayland_ready {
            LoopAction::DispatchWayland
        } else if input_ready {
            LoopAction::ReadInput
        } else {
            LoopAction::Nothing
        }
    } else if poll_ret == 0 {
        LoopAction::CancelRead
    } else {
        LoopAction::PollFailed
    }
}

/// After a poll, the loop's action depends only on the sign of the poll's
/// count and on which descriptors are ready: any positive count with the
/// compositor's socket ready dispatches its events; otherwise any positive
/// count with the input ready reads a line; a count of zero gives up the
/// read; a negative count is a failure. Two polls with positive counts and
/// the same readiness lead to the same action.
pub proof fn lemma_loop_action(poll_ret: i32, other_ret: i32, wayland_ready: bool, input_ready: bool)
    ensures
        poll_ret > 0 && wayland_ready ==> loop_action_of(poll_ret, wayland_ready, input_ready)
            == LoopAction::DispatchWayland,
        poll_ret > 0 && !wayland_ready && input_ready ==> loop_action_of(
            poll_ret,
            wayland_ready,
            input_ready,
        ) == LoopAction::ReadInput,
        poll_ret > 0 && !wayland_ready && !input_ready ==> loop_action_of(
            poll_ret,
            wayland_ready,
            input_ready,
        ) == LoopAction::Nothing,
        poll_ret == 0 ==> loop_action_of(poll_ret, wayland_ready, input_ready)
            == LoopAction::CancelRead,
        poll_ret < 0 ==> loop_action_of(poll_ret, wayland_ready, input_ready)
            == LoopAction::PollFailed,
        poll_ret > 0 && other_ret > 0 ==> loop_action_of(poll_ret, wayland_ready, input_ready)
            == loop_action_of(other_ret, wayland_ready, input_ready),
{
}

/// Decides what the event loop does after a poll; the compositor comes first.
pub fn next_action(poll_ret: i32, wayland_ready: bool, input_ready: bool) -> (r: LoopAction)
    ensures
        r == loop_action_of(poll_ret, wayland_ready, input_ready),
        poll_ret > 0 && wayland_ready ==> r == LoopAction::DispatchWayland,
        poll_ret > 0 && !wayland_ready && input_ready ==> r == LoopAction::ReadInput,
        poll_ret > 0 && !wayland_ready && !input_ready ==> r == LoopAction::Nothing,
        poll_ret == 0 ==> r == LoopAction::CancelRead,
        poll_ret < 0 ==> r == LoopAction::PollFailed,
{
    if poll_ret > 0 {
        if wayland_ready {
            LoopAction::DispatchWayland
        } else if input_ready {
            LoopAction::ReadInput
        } else {
            LoopAction::Nothing
        }
    } else if poll_ret == 0 {
        LoopAction::CancelRead
    } else {
        LoopAction::PollFailed
    }
}

/// What a line of input leads to.
pub struct InputFrame {
    /// The digits to draw: the line's, or zeros when it holds none.
    pub digits: [u8; 6],
    /// Whether the line held six hex digits.
    pub valid: bool,
    /// Whether to draw: only once the surface is configured.
    pub draw: bool,
}

/// Reads a line of input for the surface `state`.
pub fn on_input(state: &SurfaceState, line: &str) -> (r: InputFrame)
    ensures
        r.valid == (clock_digits_of(line@) is Some),
        r.valid ==> r.digits@ == clock_digits_of(line@)->0,
        !r.valid ==> r.digits@ == seq![0u8, 0u8, 0u8, 0u8, 0u8, 0u8],
        r.draw == state.configured,
{
    match parse_clock_line(line) {
        Some(d) => InputFrame { digits: d, valid: true, draw: state.configured },
        None => {
            let z: [u8; 6] = [0, 0, 0, 0, 0, 0];
            assert(z@ =~= seq![0u8, 0u8, 0u8, 0u8, 0u8, 0u8]);
            InputFrame { digits: z, valid: false, draw: state.configured }
        },
    }
}

/// The edges of the output a layer surface can be anchored to.
#[verifier::external_type_specification]
#[verifier::external_body]
pub struct ExAnchor(Anchor);

/// Anchor bits: top=1 bottom=2 left=4 right=8.
pub open spec fn anchor_bits_valid(bits: u32) -> bool {
    bits & 0xfffffff0u32 == 0
}

/// The anchor whose edges are exactly the bits `bits`, as bitflags builds it.
pub uninterp spec fn anchor_of(bits: u32) -> Anchor;

/// `Anchor::from_bits` (bitflags): the anchor with exactly the edges that
/// `bits` names, when every bit of `bits` names one of the four edges;
/// `None` otherwise.
#[verifier::external_body]
fn anchor_from_bits(bits: u32) -> (r: Option<Anchor>)
    ensures
        r is Some <==> anchor_bits_valid(bits),
        r matches Some(a) ==> a == anchor_of(bits),
{
    Anchor::from_bits(bits)
}

/// The anchor that the `--anchor` bits name, or `None` for bits that name no edge.
pub fn layer_anchor(bits: u32) -> (r: Option<Anchor>)
    ensures
        r is Some <==> anchor_bits_valid(bits),
        r matches Some(a) ==> a == anchor_of(bits),
{
    anchor_from_bits(bits)
}

} // verus!
