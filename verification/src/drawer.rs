use vstd::prelude::*;

verus! {

/// Display width in pixels (the long side, as drawn).
pub const WIDTH: usize = 296;

/// Display height in pixels.
pub const HEIGHT: usize = 128;

/// Bytes of a one-bit-per-pixel frame.
pub const FRAME_BUFFER_SIZE: usize = (WIDTH * HEIGHT) / 8;

/// Number of partial refreshes between two full ones.
pub const REFRESH_AFTER: u8 = 10;

/// The pixel lies on the display.
pub open spec fn on_screen(x: i32, y: i32) -> bool {
    0 <= x < WIDTH && 0 <= y < HEIGHT
}

/// The byte holding a pixel: the display is rotated, so a drawing column is a panel row.
pub open spec fn pixel_byte(x: i32, y: i32) -> int {
    x * (HEIGHT / 8) as int + (HEIGHT - 1 - y) / 8
}

/// The bit of its byte a pixel sets, most significant bit first.
pub open spec fn pixel_shift(y: i32) -> u8 {
    ((HEIGHT - 1 - y) % 8) as u8
}

/// The mask of a pixel in its byte.
pub open spec fn pixel_mask(y: i32) -> u8 {
    0x80u8 >> pixel_shift(y)
}

/// The pixel is lit in a frame.
pub open spec fn pixel_on(frame: Seq<u8>, x: i32, y: i32) -> bool {
    frame[pixel_byte(x, y)] & pixel_mask(y) != 0
}

/// The frame after drawing one pixel.
pub open spec fn drawn(frame: Seq<u8>, x: i32, y: i32, on: bool) -> Seq<u8> {
    let i = pixel_byte(x, y);
    frame.update(
        i,
        if on {
            frame[i] | pixel_mask(y)
        } else {
            frame[i] & !pixel_mask(y)
        },
    )
}

/// The pixels of the display, one bit each.
pub struct FrameBuffer {
    pub bytes: [u8; 4736],
}

impl FrameBuffer {
    /// A dark frame.
    pub fn new() -> (fb: FrameBuffer)
        ensures
            fb.bytes@.len() == FRAME_BUFFER_SIZE,
            forall|i: int| 0 <= i < FRAME_BUFFER_SIZE ==> fb.bytes@[i] == 0,
    {
        FrameBuffer { bytes: [0u8; 4736] }
    }

    /// Sets or clears a pixel; a pixel outside the display is discarded.
    pub fn draw(&mut self, x: i32, y: i32, on: bool)
        ensures
            on_screen(x, y) ==> final(self).bytes@ == drawn(old(self).bytes@, x, y, on),
            !on_screen(x, y) ==> final(self).bytes@ == old(self).bytes@,
    {
        if pixel_on_screen(x, y) {
            self.draw_pixel(x, y, on);
        }
    }

    /// Sets or clears one pixel of the display.
    pub fn draw_pixel(&mut self, x: i32, y: i32, on: bool)
        requires
            on_screen(x, y),
        ensures
            final(self).bytes@ == drawn(old(self).bytes@, x, y, on),
    {
        let col = (HEIGHT - 1) - y as usize;
        let row = x as usize;
        assert(row * HEIGHT / 8 == row * 16) by (nonlinear_arith)
            requires
                HEIGHT == 128,
        ;
        let index = row * HEIGHT / 8 + col / 8;
        assert(index == pixel_byte(x, y));
        let mask: u8 = 0x80u8 >> ((col % 8) as u8);
        if on {
            self.bytes[index] = self.bytes[index] | mask;
        } else {
            self.bytes[index] = self.bytes[index] & !mask;
        }
        assert(self.bytes@ =~= drawn(old(self).bytes@, x, y, on));
    }
}

proof fn lemma_bit_of_set(v: u8, s: u8, t: u8)
    requires
        s < 8,
        t < 8,
    ensures
        ((v | (0x80u8 >> s)) & (0x80u8 >> t) != 0) == (s == t || v & (0x80u8 >> t) != 0),
        ((v & !(0x80u8 >> s)) & (0x80u8 >> t) != 0) == (s != t && v & (0x80u8 >> t) != 0),
{
    assert(((v | (0x80u8 >> s)) & (0x80u8 >> t) != 0) == (s == t || v & (0x80u8 >> t) != 0))
        by (bit_vector)
        requires
            s < 8,
            t < 8,
    ;
    assert(((v & !(0x80u8 >> s)) & (0x80u8 >> t) != 0) == (s != t && v & (0x80u8 >> t) != 0))
        by (bit_vector)
        requires
            s < 8,
            t < 8,
    ;
}

/// Every pixel of the display lies in the frame, and distinct pixels use distinct bits.
pub proof fn lemma_pixels_distinct(x1: i32, y1: i32, x2: i32, y2: i32)
    requires
        on_screen(x1, y1),
        on_screen(x2, y2),
    ensures
        (x1 != x2 || y1 != y2) ==> (pixel_byte(x1, y1) != pixel_byte(x2, y2) || pixel_shift(y1)
            != pixel_shift(y2)),
        0 <= pixel_byte(x1, y1) < FRAME_BUFFER_SIZE,
{
    assert((HEIGHT / 8) as int == 16);
}

/// A drawn pixel reads back as drawn, and every other pixel of the display keeps its value.
pub proof fn lemma_draw_then_read(frame: Seq<u8>, x: i32, y: i32, on: bool, a: i32, b: i32)
    requires
        frame.len() == FRAME_BUFFER_SIZE,
        on_screen(x, y),
        on_screen(a, b),
    ensures
        pixel_on(drawn(frame, x, y, on), x, y) == on,
        (a != x || b != y) ==> pixel_on(drawn(frame, x, y, on), a, b) == pixel_on(frame, a, b),
{
    lemma_pixels_distinct(x, y, x, y);
    let i = pixel_byte(x, y);
    lemma_bit_of_set(frame[i], pixel_shift(y), pixel_shift(y));
    if a != x || b != y {
        lemma_pixels_distinct(x, y, a, b);
        let j = pixel_byte(a, b);
        if j == i {
            lemma_bit_of_set(frame[i], pixel_shift(y), pixel_shift(b));
        }
    }
}

/// The panel layout: lighting pixel `(x, y)` of a dark frame sets only byte `16 x + 15 - y / 8`,
/// to the bit `y % 8` counted from the least significant one; every other byte stays dark.
pub proof fn lemma_dark_frame_pixel(frame: Seq<u8>, x: i32, y: i32, i: int)
    requires
        frame.len() == FRAME_BUFFER_SIZE,
        forall|j: int| 0 <= j < frame.len() ==> frame[j] == 0,
        on_screen(x, y),
        0 <= i < FRAME_BUFFER_SIZE,
    ensures
        i == 16 * x + 15 - y / 8 ==> drawn(frame, x, y, true)[i] == (1u8 << ((y % 8) as u8)),
        i != 16 * x + 15 - y / 8 ==> drawn(frame, x, y, true)[i] == 0,
{
    assert((HEIGHT / 8) as int == 16);
    assert((127 - y) / 8 == 15 - y / 8 && (127 - y) % 8 == 7 - y % 8);
    assert(pixel_byte(x, y) == 16 * x + 15 - y / 8);
    let t: u8 = (y % 8) as u8;
    let s: u8 = (7 - t) as u8;
    assert(pixel_shift(y) == s);
    assert((0u8 | (0x80u8 >> s)) == (1u8 << t)) by (bit_vector)
        requires
            t < 8,
            s + t == 7,
    ;
}

/// How the panel is refreshed after a frame was written.
#[derive(Debug, Clone, Copy, PartialEq, Eq, Structural)]
pub enum RefreshKind {
    /// The whole panel is redrawn (slow, clears ghosting).
    Full,
    /// Only the changed pixels are redrawn.
    Partial,
}

/// The refresh done with a given count of partial refreshes since the last full one.
pub open spec fn refresh_kind(count: u8) -> RefreshKind {
    if count >= REFRESH_AFTER {
        RefreshKind::Full
    } else {
        RefreshKind::Partial
    }
}

/// The count after a refresh.
pub open spec fn count_after_refresh(count: u8) -> u8 {
    if count >= REFRESH_AFTER {
        0
    } else {
        (count + 1) as u8
    }
}

/// Whether the drawing surface has changed since it was last flushed.
pub struct SsdTarget {
    pub frame_buffer_changed: bool,
}

impl SsdTarget {
    /// A surface that counts as changed, so the first flush goes through.
    pub fn new() -> (t: SsdTarget)
        ensures
            t.frame_buffer_changed,
    {
        SsdTarget { frame_buffer_changed: true }
    }

    /// Notes that pixels were drawn.
    pub fn mark_drawn(&mut self)
        ensures
            final(self).frame_buffer_changed,
    {
        self.frame_buffer_changed = true;
    }

    /// Whether a flush must be sent to the display; a flush is sent once per change.
    pub fn flush(&mut self) -> (r: bool)
        ensures
            r == old(self).frame_buffer_changed,
            !final(self).frame_buffer_changed,
    {
        if self.frame_buffer_changed {
            self.frame_buffer_changed = false;
            true
        } else {
            false
        }
    }
}

/// The frame to show and the refresh bookkeeping of the display.
pub struct SsdTargetManager {
    pub frame_buffer: FrameBuffer,
    pub refresh_count: u8,
}

impl SsdTargetManager {
    /// A dark frame, with the count set so that the first refresh is a full one.
    pub fn new() -> (m: SsdTargetManager)
        ensures
            m.refresh_count == REFRESH_AFTER,
            m.frame_buffer.bytes@.len() == FRAME_BUFFER_SIZE,
            forall|i: int| 0 <= i < FRAME_BUFFER_SIZE ==> m.frame_buffer.bytes@[i] == 0,
    {
        SsdTargetManager { frame_buffer: FrameBuffer::new(), refresh_count: REFRESH_AFTER }
    }

    /// The refresh the next frame will get, without counting it.
    pub fn pending_refresh(&self) -> (r: RefreshKind)
        ensures
            r == refresh_kind(self.refresh_count),
    {
        if self.refresh_count >= REFRESH_AFTER {
            RefreshKind::Full
        } else {
            RefreshKind::Partial
        }
    }

    /// Chooses the refresh for the frame being written: a full refresh once `REFRESH_AFTER`
    /// partial ones were done, which restarts the count; otherwise a partial one, counted.
    pub fn next_refresh(&mut self) -> (r: RefreshKind)
        ensures
            r == refresh_kind(old(self).refresh_count),
            final(self).refresh_count == count_after_refresh(old(self).refresh_count),
            final(self).frame_buffer == old(self).frame_buffer,
    {
        if self.refresh_count >= REFRESH_AFTER {
            self.refresh_count = 0;
            RefreshKind::Full
        } else {
            self.refresh_count = self.refresh_count + 1;
            RefreshKind::Partial
        }
    }
}

/// The refresh count after `k` refreshes of a new display.
pub open spec fn count_after(k: nat) -> u8
    decreases k,
{
    if k == 0 {
        REFRESH_AFTER
    } else {
        count_after_refresh(count_after((k - 1) as nat))
    }
}

/// Starting from a new display, refresh number `k` (counting from 0) is a full refresh exactly
/// when `k` is a multiple of 11: one full refresh, then ten partial ones, again and again.
pub proof fn lemma_refresh_cycle(k: nat)
    ensures
        refresh_kind(count_after(k)) == (if k % 11 == 0 {
            RefreshKind::Full
        } else {
            RefreshKind::Partial
        }),
        k > 0 ==> count_after(k) == (k - 1) % 11,
    decreases k,
{
    if k > 0 {
        lemma_refresh_cycle((k - 1) as nat);
    }
}

/// Whether a pixel lies on the display.
pub fn pixel_on_screen(x: i32, y: i32) -> (r: bool)
    ensures
        r == on_screen(x, y),
{
    0 <= x && x < WIDTH as i32 && 0 <= y && y < HEIGHT as i32
}

} // verus!
