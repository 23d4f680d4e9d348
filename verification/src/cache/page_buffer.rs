//! Geometry of a device-resident page buffer.
//!
//! A page is row-major RGBA8.  Rows that a blit touched are downloaded and
//! cleared again; this module decides which bytes those are.

use vstd::prelude::*;

verus! {

/// Bytes of an RGBA8 pixel.
pub const RGBA_BPP: usize = 4;

/// A page size or a row range that does not exist.
#[derive(Debug, Clone, Copy, PartialEq, Eq, Structural)]
pub struct InvalidValue;

/// Composition target for one page.
#[derive(Debug, Clone, Copy, PartialEq, Eq, Structural)]
pub struct DevicePageBuffer {
    width: u32,
    height: u32,
}

/// A range of bytes.
#[derive(Debug, Clone, Copy, PartialEq, Eq, Structural)]
pub struct ByteRange {
    /// First byte.
    pub start: usize,
    /// One past the last byte.
    pub end: usize,
}

/// Bytes of a `width` by `height` page.
pub open spec fn page_bytes(width: u32, height: u32) -> nat {
    (width as nat * height as nat) * 4
}

impl DevicePageBuffer {
    pub closed spec fn columns(self) -> u32 {
        self.width
    }

    pub closed spec fn lines(self) -> u32 {
        self.height
    }

    /// The page can be addressed.
    pub open spec fn wf(self) -> bool {
        page_bytes(self.columns(), self.lines()) <= usize::MAX
    }

    /// First byte of row `y`.
    pub open spec fn row_start(self, y: nat) -> nat {
        y * (self.columns() as nat * 4)
    }

    /// A page of `width` by `height` pixels; refused where its size cannot be
    /// addressed.
    pub fn new(width: u32, height: u32) -> (r: Result<Self, InvalidValue>)
        ensures
            match r {
                Ok(page) => page.wf() && page.columns() == width && page.lines() == height,
                Err(_) => page_bytes(width, height) > usize::MAX,
            },
    {
        proof {
            let w = width as int;
            let h = height as int;
            assert(0 <= w * h <= 0xFFFF_FFFF * 0xFFFF_FFFF) by (nonlinear_arith)
                requires
                    0 <= w <= 0xFFFF_FFFF,
                    0 <= h <= 0xFFFF_FFFF,
            ;
        }
        let bytes: u128 = width as u128 * height as u128 * 4;
        if bytes > usize::MAX as u128 {
            return Err(InvalidValue);
        }
        Ok(DevicePageBuffer { width, height })
    }

    /// Width in pixels.
    #[must_use]
    pub fn width(&self) -> (n: u32)
        ensures
            n == self.columns(),
    {
        self.width
    }

    /// Height in pixels.
    #[must_use]
    pub fn height(&self) -> (n: u32)
        ensures
            n == self.lines(),
    {
        self.height
    }

    /// Size of the whole page in bytes.
    #[must_use]
    pub fn byte_len(&self) -> (n: usize)
        requires
            self.wf(),
        ensures
            n == page_bytes(self.columns(), self.lines()),
    {
        self.width as usize * self.height as usize * 4
    }

    /// Bytes of a row.
    #[must_use]
    pub fn row_bytes(&self) -> (n: usize)
        requires
            self.columns() * 4 <= usize::MAX,
        ensures
            n == self.columns() * 4,
    {
        self.width as usize * 4
    }

    /// Byte range of rows `[y0, y1)`; refused if the range is inverted or runs
    /// past the page.
    pub fn row_range(&self, y0: u32, y1: u32) -> (r: Result<ByteRange, InvalidValue>)
        requires
            self.wf(),
        ensures
            if y0 > y1 || y1 > self.lines() {
                r == Err::<ByteRange, InvalidValue>(InvalidValue)
            } else {
                r matches Ok(range) && range.start == self.row_start(y0 as nat) && range.end
                    == self.row_start(y1 as nat) && range.start <= range.end && range.end
                    <= page_bytes(self.columns(), self.lines())
            },
    {
        if y0 > y1 || y1 > self.height {
            return Err(InvalidValue);
        }
        if y1 == 0 {
            assert(self.row_start(0) == 0) by (nonlinear_arith);
            return Ok(ByteRange { start: 0, end: 0 });
        }
        proof {
            lemma_rows(*self, y0 as nat, y1 as nat);
            let w = self.width as int;
            let h = self.height as int;
            assert(w * 4 <= (w * h) * 4) by (nonlinear_arith)
                requires
                    w >= 0,
                    h >= 1,
            ;
        }
        let row: usize = self.width as usize * 4;
        Ok(ByteRange { start: y0 as usize * row, end: y1 as usize * row })
    }

    /// Which bytes to download for rows `[y0, y1)`; nothing where there are
    /// none.
    pub fn download_rows(&self, y0: u32, y1: u32) -> (r: Result<Option<ByteRange>, InvalidValue>)
        requires
            self.wf(),
        ensures
            rows_answered(*self, y0, y1, r),
    {
        match self.row_range(y0, y1) {
            Err(e) => Err(e),
            Ok(range) => if range.start == range.end {
                Ok(None)
            } else {
                Ok(Some(range))
            },
        }
    }

    /// Which bytes to download for the whole page.
    pub fn download(&self) -> (r: Result<Option<ByteRange>, InvalidValue>)
        requires
            self.wf(),
        ensures
            rows_answered(*self, 0, self.lines(), r),
    {
        self.download_rows(0, self.height)
    }

    /// Which bytes to clear for rows `[y0, y1)`; nothing where there are none.
    pub fn zero_rows(&self, y0: u32, y1: u32) -> (r: Result<Option<ByteRange>, InvalidValue>)
        requires
            self.wf(),
        ensures
            rows_answered(*self, y0, y1, r),
    {
        self.download_rows(y0, y1)
    }
}

/// What is answered to a request for rows.
pub open spec fn rows_answered(
    page: DevicePageBuffer,
    y0: u32,
    y1: u32,
    r: Result<Option<ByteRange>, InvalidValue>,
) -> bool {
    if y0 > y1 || y1 > page.lines() {
        r == Err::<Option<ByteRange>, InvalidValue>(InvalidValue)
    } else if page.row_start(y0 as nat) == page.row_start(y1 as nat) {
        r == Ok::<Option<ByteRange>, InvalidValue>(None)
    } else {
        r matches Ok(Some(range)) && range.start == page.row_start(y0 as nat) && range.end
            == page.row_start(y1 as nat)
    }
}

/// Rows stay within the page.
proof fn lemma_rows(page: DevicePageBuffer, y0: nat, y1: nat)
    requires
        page.wf(),
        y0 <= y1 <= page.lines(),
    ensures
        page.row_start(y0) <= page.row_start(y1) <= page_bytes(page.columns(), page.lines()),
{
    let w = page.columns() as int;
    let h = page.lines() as int;
    let a = y0 as int;
    let b = y1 as int;
    assert(a * (w * 4) <= b * (w * 4) && b * (w * 4) <= (w * h) * 4) by (nonlinear_arith)
        requires
            0 <= a <= b <= h,
            w >= 0,
    ;
}

/// Row ranges tile the page: the whole page is its rows, a range's length is
/// its rows' bytes, and ranges that adjoin in rows adjoin in bytes.
pub proof fn law_row_ranges_tile_the_page(page: DevicePageBuffer, y0: nat, y1: nat)
    requires
        page.wf(),
        y0 <= y1 <= page.lines(),
    ensures
        page.row_start(0) == 0,
        page.row_start(page.lines() as nat) == page_bytes(page.columns(), page.lines()),
        page.row_start(y1) - page.row_start(y0) == (y1 - y0) * page.columns() * 4,
        page.row_start(y1) <= page_bytes(page.columns(), page.lines()),
{
    lemma_rows(page, y0, y1);
    let w = page.columns() as int;
    let h = page.lines() as int;
    let a = y0 as int;
    let b = y1 as int;
    assert(h * (w * 4) == (w * h) * 4) by (nonlinear_arith);
    assert(b * (w * 4) - a * (w * 4) == (b - a) * w * 4) by (nonlinear_arith);
    assert(0 * (w * 4) == 0);
}

/// The range of some rows takes in the four bytes of a pixel exactly if the
/// pixel lies in one of the rows.
pub proof fn law_row_ranges_take_in_their_pixels(
    page: DevicePageBuffer,
    y0: u32,
    y1: u32,
    range: ByteRange,
    x: u32,
    y: u32,
)
    requires
        page.wf(),
        rows_answered(page, y0, y1, Ok(Some(range))),
        x < page.columns(),
        y < page.lines(),
    ensures
        ({
            let at = 4 * (y * page.columns() + x);
            range.start <= at && at + 4 <= range.end <==> y0 <= y < y1
        }),
{
    let w = page.columns() as int;
    let a = y0 as int;
    let b = y1 as int;
    let r = y as int;
    let at = 4 * (r * w + x);
    assert(a <= r ==> a * (w * 4) <= at) by (nonlinear_arith)
        requires
            at == 4 * (r * w + x),
            w >= 0,
            x >= 0,
    ;
    assert(r < a ==> at < a * (w * 4)) by (nonlinear_arith)
        requires
            at == 4 * (r * w + x),
            0 <= x < w,
    ;
    assert(r < b ==> at + 4 <= b * (w * 4)) by (nonlinear_arith)
        requires
            at == 4 * (r * w + x),
            0 <= x < w,
    ;
    assert(b <= r ==> b * (w * 4) <= at) by (nonlinear_arith)
        requires
            at == 4 * (r * w + x),
            w >= 0,
            x >= 0,
    ;
}

} // verus!
