//! The consumer's side of a render: a frame buffer that rows from the
//! workers are placed into, each by the row index it carries.

use vstd::prelude::*;

verus! {

/// Bytes of one pixel: red, green, blue.
pub const BYTES_PER_PIXEL: usize = 3;

/// One finished scanline, as a worker sends it: the row index, counted from
/// the bottom of the image, and one byte triple per pixel, left to right.
#[derive(Clone, Debug)]
pub struct RenderResult {
    pub row_index: u32,
    pub pixels: Vec<u8>,
}

/// Why a row could not be placed into a frame.
#[derive(Clone, Copy, Debug, PartialEq, Eq, Structural)]
pub enum PlaceError {
    /// The row index is not below the frame's height.
    RowOutOfRange,
    /// The row does not hold exactly one byte triple per column.
    WrongLength,
    /// A row with this index was placed before.
    AlreadyReceived,
}

/// Bytes of one row of a frame `width` pixels wide.
pub open spec fn pitch_of(width: nat) -> nat {
    3 * width
}

/// Where row `row` (counted from the bottom) starts in a buffer that holds
/// `height` rows of `pitch` bytes, top row first.
pub open spec fn row_offset_of(row: nat, height: nat, pitch: nat) -> int {
    (height - 1 - row) * pitch
}

/// `buf` with the bytes from `off` on replaced by `data`.
pub open spec fn overwrite(buf: Seq<u8>, off: int, data: Seq<u8>) -> Seq<u8> {
    Seq::new(
        buf.len(),
        |k: int|
            if off <= k < off + data.len() {
                data[k - off]
            } else {
                buf[k]
            },
    )
}

/// Number of rows not received yet.
pub open spec fn count_missing(received: Seq<bool>) -> nat
    decreases received.len(),
{
    if received.len() == 0 {
        0
    } else {
        count_missing(received.drop_last()) + if received.last() {
            0nat
        } else {
            1nat
        }
    }
}

proof fn lemma_count_missing_bound(s: Seq<bool>)
    ensures
        count_missing(s) <= s.len(),
        count_missing(s) == 0 <==> forall|i: int| 0 <= i < s.len() ==> #[trigger] s[i],
    decreases s.len(),
{
    if s.len() > 0 {
        lemma_count_missing_bound(s.drop_last());
        if count_missing(s) == 0 {
            assert forall|i: int| 0 <= i < s.len() implies #[trigger] s[i] by {
                if i < s.len() - 1 {
                    assert(s.drop_last()[i] == s[i]);
                }
            }
        }
        if forall|i: int| 0 <= i < s.len() ==> #[trigger] s[i] {
            assert(s[s.len() - 1]);
            assert forall|i: int| 0 <= i < s.drop_last().len() implies #[trigger] s.drop_last()[i] by {
                assert(s[i]);
            }
        }
    }
}

proof fn lemma_count_missing_all(n: nat)
    ensures
        count_missing(Seq::new(n, |i: int| false)) == n,
    decreases n,
{
    if n > 0 {
        lemma_count_missing_all((n - 1) as nat);
        assert(Seq::new(n, |i: int| false).drop_last() =~= Seq::new((n - 1) as nat, |i: int| false));
    }
}

proof fn lemma_count_missing_mark(s: Seq<bool>, i: int)
    requires
        0 <= i < s.len(),
        !s[i],
    ensures
        count_missing(s.update(i, true)) + 1 == count_missing(s),
    decreases s.len(),
{
    if i == s.len() - 1 {
        assert(s.update(i, true).drop_last() =~= s.drop_last());
    } else {
        lemma_count_missing_mark(s.drop_last(), i);
        assert(s.update(i, true).drop_last() =~= s.drop_last().update(i, true));
    }
}

/// Where row `row`, counted from the bottom, starts in a buffer of `height`
/// rows of `pitch` bytes stored top row first.
pub fn row_offset(row: u32, height: u32, pitch: usize) -> (r: usize)
    requires
        row < height,
        height * pitch <= usize::MAX,
    ensures
        r == row_offset_of(row as nat, height as nat, pitch as nat),
{
    let from_top: u32 = height - 1 - row;
    proof {
        assert(from_top * pitch <= height * pitch) by (nonlinear_arith)
            requires
                from_top < height,
        ;
    }
    from_top as usize * pitch
}

/// What a frame holds: its size in pixels, its bytes, top row first, and
/// for each row, counted from the bottom, whether it has arrived.
pub struct FrameView {
    pub width: nat,
    pub height: nat,
    pub bytes: Seq<u8>,
    pub received: Seq<bool>,
}

/// Whether a row with index `row` and `len` bytes can be placed into a
/// frame, and if not, why.
pub open spec fn place_outcome(frame: FrameView, row: nat, len: nat) -> Result<(), PlaceError> {
    if row >= frame.height {
        Err(PlaceError::RowOutOfRange)
    } else if len != pitch_of(frame.width) {
        Err(PlaceError::WrongLength)
    } else if frame.received[row as int] {
        Err(PlaceError::AlreadyReceived)
    } else {
        Ok(())
    }
}

/// A frame buffer being filled by rows that arrive in any order.
pub struct Frame {
    width: u32,
    height: u32,
    bytes: Vec<u8>,
    received: Vec<bool>,
    remaining: u32,
}

impl View for Frame {
    type V = FrameView;

    closed spec fn view(&self) -> FrameView {
        FrameView {
            width: self.width as nat,
            height: self.height as nat,
            bytes: self.bytes@,
            received: self.received@,
        }
    }
}

impl Frame {
    /// The frame's own consistency: one byte triple per pixel, one flag per
    /// row, and a count of the rows still missing.
    pub closed spec fn wf(&self) -> bool {
        &&& pitch_of(self.width as nat) <= usize::MAX
        &&& self.height * pitch_of(self.width as nat) <= usize::MAX
        &&& self.bytes@.len() == self.height * pitch_of(self.width as nat)
        &&& self.received@.len() == self.height
        &&& self.remaining == count_missing(self.received@)
    }

    /// A black frame of `width` by `height` pixels with no row received.
    pub fn new(width: u32, height: u32) -> (r: Frame)
        requires
            pitch_of(width as nat) <= usize::MAX,
            height * pitch_of(width as nat) <= usize::MAX,
        ensures
            r.wf(),
            r@.width == width,
            r@.height == height,
            r@.bytes == Seq::new((height * pitch_of(width as nat)) as nat, |i: int| 0u8),
            r@.received == Seq::new(height as nat, |i: int| false),
    {
        let pitch: usize = BYTES_PER_PIXEL * width as usize;
        let size: usize = height as usize * pitch;
        let mut bytes: Vec<u8> = Vec::new();
        let mut k: usize = 0;
        while k < size
            invariant
                k <= size,
                bytes@ =~= Seq::new(k as nat, |i: int| 0u8),
            decreases size - k,
        {
            bytes.push(0u8);
            k = k + 1;
        }
        let mut received: Vec<bool> = Vec::new();
        let mut j: u32 = 0;
        while j < height
            invariant
                j <= height,
                received@ =~= Seq::new(j as nat, |i: int| false),
            decreases height - j,
        {
            received.push(false);
            j = j + 1;
        }
        proof {
            lemma_count_missing_all(height as nat);
        }
        Frame { width, height, bytes, received, remaining: height }
    }

    pub fn width(&self) -> (r: u32)
        ensures
            r == self@.width,
    {
        self.width
    }

    pub fn height(&self) -> (r: u32)
        ensures
            r == self@.height,
    {
        self.height
    }

    /// Bytes of one row.
    pub fn pitch(&self) -> (r: usize)
        requires
            self.wf(),
        ensures
            r == pitch_of(self@.width),
    {
        BYTES_PER_PIXEL * self.width as usize
    }

    /// The whole buffer, top row first.
    pub fn bytes(&self) -> (r: &Vec<u8>)
        ensures
            r@ == self@.bytes,
    {
        &self.bytes
    }

    /// Whether row `row` has been placed.
    pub fn row_received(&self, row: u32) -> (r: bool)
        requires
            self.wf(),
        ensures
            r == (row < self@.height && self@.received[row as int]),
    {
        row < self.height && self.received[row as usize]
    }

    /// How many rows have not arrived yet.
    pub fn rows_remaining(&self) -> (r: u32)
        requires
            self.wf(),
        ensures
            r == count_missing(self@.received),
    {
        self.remaining
    }

    /// Whether every row has arrived.
    pub fn is_complete(&self) -> (r: bool)
        requires
            self.wf(),
        ensures
            r == forall|i: int| 0 <= i < self@.height ==> #[trigger] self@.received[i],
    {
        proof {
            lemma_count_missing_bound(self.received@);
            assert(self@.received == self.received@);
        }
        self.remaining == 0
    }

    /// Copies a finished row into the buffer at the place its row index
    /// names, and records that it has arrived.
    pub fn place_row(&mut self, result: &RenderResult) -> (r: Result<(), PlaceError>)
        requires
            old(self).wf(),
        ensures
            final(self).wf(),
            r == place_outcome(old(self)@, result.row_index as nat, result.pixels@.len()),
            r is Ok ==> final(self)@ == (FrameView {
                bytes: overwrite(
                    old(self)@.bytes,
                    row_offset_of(
                        result.row_index as nat,
                        old(self)@.height,
                        pitch_of(old(self)@.width),
                    ),
                    result.pixels@,
                ),
                received: old(self)@.received.update(result.row_index as int, true),
                ..old(self)@
            }),
            r is Err ==> *final(self) == *old(self),
    {
        if result.row_index >= self.height {
            return Err(PlaceError::RowOutOfRange);
        }
        let pitch: usize = self.pitch();
        if result.pixels.len() != pitch {
            return Err(PlaceError::WrongLength);
        }
        if self.received[result.row_index as usize] {
            return Err(PlaceError::AlreadyReceived);
        }
        let off: usize = row_offset(result.row_index, self.height, pitch);
        proof {
            let h = self.height as int;
            let row = result.row_index as int;
            assert(off + pitch <= h * pitch) by (nonlinear_arith)
                requires
                    off == (h - 1 - row) * pitch,
                    0 <= row < h,
            ;
        }
        let ghost before = self.bytes@;
        let mut k: usize = 0;
        while k < pitch
            invariant
                k <= pitch,
                pitch == result.pixels@.len(),
                self.width == old(self).width,
                self.height == old(self).height,
                self.received == old(self).received,
                self.remaining == old(self).remaining,
                old(self).wf(),
                result.row_index < self.height,
                !self.received@[result.row_index as int],
                off + pitch <= self.bytes@.len(),
                off + pitch <= usize::MAX,
                self.bytes@.len() == before.len(),
                forall|m: int|
                    0 <= m < before.len() ==> #[trigger] self.bytes@[m] == if off <= m < off + k {
                        result.pixels@[m - off]
                    } else {
                        before[m]
                    },
            decreases pitch - k,
        {
            self.bytes.set(off + k, result.pixels[k]);
            k = k + 1;
        }
        assert(self.bytes@ =~= overwrite(before, off as int, result.pixels@));
        proof {
            lemma_count_missing_mark(self.received@, result.row_index as int);
        }
        self.received.set(result.row_index as usize, true);
        self.remaining = self.remaining - 1;
        Ok(())
    }
}

/// What the display loop does next.
#[derive(Clone, Copy, Debug, PartialEq, Eq, Structural)]
pub enum DisplayAction {
    /// A quit was requested: leave the loop; rendering may still finish.
    Stop,
    /// Rows are still missing: wait for the next one and place it.
    ReceiveRow,
    /// The frame is complete and the render time is not shown yet.
    ReportTime,
    /// The frame is complete and reported: idle until a quit comes.
    Wait,
}

/// The display loop's next action, from the rows still missing, whether a
/// quit was requested, and whether the render time has been shown.
pub open spec fn display_action_of(rows_remaining: nat, quit: bool, reported: bool) -> DisplayAction {
    if quit {
        DisplayAction::Stop
    } else if rows_remaining > 0 {
        DisplayAction::ReceiveRow
    } else if !reported {
        DisplayAction::ReportTime
    } else {
        DisplayAction::Wait
    }
}

/// Decides the display loop's next action.
pub fn next_display_action(rows_remaining: u32, quit: bool, reported: bool) -> (r: DisplayAction)
    ensures
        r == display_action_of(rows_remaining as nat, quit, reported),
{
    if quit {
        DisplayAction::Stop
    } else if rows_remaining > 0 {
        DisplayAction::ReceiveRow
    } else if !reported {
        DisplayAction::ReportTime
    } else {
        DisplayAction::Wait
    }
}

} // verus!
