//! The falling-glyph backdrop: one column of glyphs per terminal column,
//! each falling at its own speed and reborn at the top once past the bottom.
//!
//! Heights are counted in thousandths of a row, speeds in thousandths of a
//! row per second, time in milliseconds.

use crate::random::{below, chance, new_rng};
use vstd::prelude::*;

verus! {

/// The glyphs of the backdrop: digits, Latin letters, half-width katakana
/// and punctuation, all one cell wide.
pub open spec fn spec_glyphs() -> &'static str {
    "0123456789ABCDEFGHIJKLMNOPQRSTUVWXYZabcdefghijklmnopqrstuvwxyzｱｲｳｴｵｶｷｸｹｺｻｼｽｾｿﾀﾁﾂﾃﾄﾅﾆﾇﾈﾉﾊﾋﾌﾍﾎﾏﾐﾑﾒﾓﾔﾕﾖﾗﾘﾙﾚﾛﾜｦﾝｧｨｩｪｫｬｭｮｯｰﾞﾟ･+-*/=<>!?@#$%&|^~:;.,"
}

/// The glyphs of the backdrop.
pub fn glyphs() -> (g: &'static str)
    ensures
        g@ == spec_glyphs()@,
{
    "0123456789ABCDEFGHIJKLMNOPQRSTUVWXYZabcdefghijklmnopqrstuvwxyzｱｲｳｴｵｶｷｸｹｺｻｼｽｾｿﾀﾁﾂﾃﾄﾅﾆﾇﾈﾉﾊﾋﾌﾍﾎﾏﾐﾑﾒﾓﾔﾕﾖﾗﾘﾙﾚﾛﾜｦﾝｧｨｩｪｫｬｭｮｯｰﾞﾟ･+-*/=<>!?@#$%&|^~:;.,"
}

/// `c` is a glyph of the backdrop.
pub open spec fn is_glyph(c: char) -> bool {
    spec_glyphs()@.contains(c)
}

/// A random glyph.
fn random_glyph(rng: &mut rand::rngs::ThreadRng) -> (c: char)
    ensures
        is_glyph(c),
{
    let g = glyphs();
    proof {
        reveal_strlit("0123456789ABCDEFGHIJKLMNOPQRSTUVWXYZabcdefghijklmnopqrstuvwxyzｱｲｳｴｵｶｷｸｹｺｻｼｽｾｿﾀﾁﾂﾃﾄﾅﾆﾇﾈﾉﾊﾋﾌﾍﾎﾏﾐﾑﾒﾓﾔﾕﾖﾗﾘﾙﾚﾛﾜｦﾝｧｨｩｪｫｬｭｮｯｰﾞﾟ･+-*/=<>!?@#$%&|^~:;.,");
    }
    let n = g.unicode_len();
    let i = below(rng, n as u64) as usize;
    let c = g.get_char(i);
    assert(spec_glyphs()@[i as int] == c);
    c
}

/// One column of the backdrop.
pub struct Column {
    /// Row of the head (the brightest glyph), in thousandths of a row.
    pub head_y_milli: i64,
    /// Falling speed, in thousandths of a row per second.
    pub speed_milli: u64,
    /// Number of glyphs of the trail, head included.
    pub length: u16,
    /// One glyph per row of the screen.
    pub chars: Vec<char>,
}

/// The backdrop.
pub struct Rain {
    pub w: u16,
    pub h: u16,
    pub columns: Vec<Column>,
}

/// Exclusive bound of the length of a new column on a screen `h` rows high:
/// between 5 and 20.
pub open spec fn length_bound(h: u16) -> int {
    if h < 5 {
        5
    } else if h > 20 {
        20
    } else {
        h as int
    }
}

/// `c` is a column as one is born on a screen `h` rows high: head above the
/// top by less than the screen height, speed from 5 to 20 rows per second,
/// trail of 4 glyphs or more, one glyph per row.
pub open spec fn newborn(c: Column, h: u16) -> bool {
    &&& -(h * 1000) <= c.head_y_milli < 0
    &&& 5000 <= c.speed_milli < 20000
    &&& 4 <= c.length < length_bound(h)
    &&& c.chars@.len() == h
    &&& forall|i: int| 0 <= i < c.chars@.len() ==> is_glyph(#[trigger] c.chars@[i])
}

/// `c` is a column of a screen `h` rows high, somewhere on its way down.
pub open spec fn column_ok(c: Column, h: u16) -> bool {
    &&& -(h * 1000) <= c.head_y_milli <= (h + c.length) * 1000
    &&& 5000 <= c.speed_milli < 20000
    &&& 4 <= c.length < length_bound(h)
    &&& c.chars@.len() == h
    &&& forall|i: int| 0 <= i < c.chars@.len() ==> is_glyph(#[trigger] c.chars@[i])
}

/// How far a column falls in `dt_ms`, in thousandths of a row.
pub open spec fn rain_step(c: Column, dt_ms: u32) -> int {
    c.speed_milli * dt_ms / 1000
}

/// `b` holds the items of `a` but for the one at `k`.
pub open spec fn same_but(a: Seq<char>, b: Seq<char>, k: int) -> bool {
    forall|i: int| 0 <= i < a.len() && i != k ==> #[trigger] b[i] == a[i]
}

/// `n` is `c` fallen by one tick of `dt_ms`, its glyphs the same but for at
/// most one, replaced by a glyph.
pub open spec fn fallen(c: Column, n: Column, dt_ms: u32) -> bool {
    &&& n.head_y_milli == c.head_y_milli + rain_step(c, dt_ms)
    &&& n.speed_milli == c.speed_milli
    &&& n.length == c.length
    &&& n.chars@.len() == c.chars@.len()
    &&& exists|k: int| #[trigger] same_but(c.chars@, n.chars@, k)
    &&& forall|i: int| 0 <= i < n.chars@.len() ==> is_glyph(#[trigger] n.chars@[i])
}

impl Rain {
    /// Every column fits the screen.
    pub open spec fn wf(self) -> bool {
        &&& self.w >= 1
        &&& self.h >= 1
        &&& self.columns@.len() == self.w
        &&& forall|i: int| 0 <= i < self.columns@.len() ==> column_ok(#[trigger] self.columns@[i], self.h)
    }

    /// A backdrop for a `w` × `h` screen (at least 1 × 1).
    pub fn new(w: u16, h: u16) -> (r: Rain)
        ensures
            r.wf(),
            r.w == if w < 1 { 1 } else { w },
            r.h == if h < 1 { 1 } else { h },
            forall|i: int| 0 <= i < r.columns@.len() ==> newborn(#[trigger] r.columns@[i], r.h),
    {
        let mut r = Rain { w, h, columns: Vec::new() };
        r.resize(w, h);
        r
    }

    /// Fits the backdrop to a `w` × `h` screen (at least 1 × 1) with fresh
    /// columns.
    pub fn resize(&mut self, w: u16, h: u16)
        ensures
            final(self).wf(),
            final(self).w == if w < 1 { 1 } else { w },
            final(self).h == if h < 1 { 1 } else { h },
            forall|i: int|
                0 <= i < final(self).columns@.len() ==> newborn(#[trigger] final(self).columns@[i], final(self).h),
    {
        self.w = if w < 1 { 1 } else { w };
        self.h = if h < 1 { 1 } else { h };
        let mut rng = new_rng();
        let mut cols: Vec<Column> = Vec::new();
        let mut i: u16 = 0;
        while i < self.w
            invariant
                i <= self.w,
                self.h >= 1,
                cols@.len() == i,
                forall|j: int| 0 <= j < cols@.len() ==> newborn(#[trigger] cols@[j], self.h),
            decreases self.w - i,
        {
            cols.push(Self::fresh_column(&mut rng, self.h));
            i = i + 1;
        }
        self.columns = cols;
    }

    /// A column just born at the top of a screen `h` rows high.
    fn fresh_column(rng: &mut rand::rngs::ThreadRng, h: u16) -> (c: Column)
        requires
            h >= 1,
        ensures
            newborn(c, h),
    {
        let upper: u16 = if h < 5 {
            5
        } else if h > 20 {
            20
        } else {
            h
        };
        let length = 4 + below(rng, (upper - 4) as u64) as u16;
        let mut chars: Vec<char> = Vec::new();
        let mut i: u16 = 0;
        while i < h
            invariant
                i <= h,
                chars@.len() == i,
                forall|j: int| 0 <= j < chars@.len() ==> is_glyph(#[trigger] chars@[j]),
            decreases h - i,
        {
            chars.push(random_glyph(rng));
            i = i + 1;
        }
        let span = (h as u64) * 1000;
        let head = below(rng, span) as i64 - span as i64;
        let speed = 5000 + below(rng, 15000);
        Column { head_y_milli: head, speed_milli: speed, length, chars }
    }

    /// `new` is `old` after `dt_ms`: every column falls, and one whose head
    /// is past the bottom by more than its trail is reborn at the top.
    pub open spec fn after_tick(old: Rain, new: Rain, dt_ms: u32) -> bool {
        &&& new.w == old.w
        &&& new.h == old.h
        &&& new.columns@.len() == old.columns@.len()
        &&& forall|i: int|
            0 <= i < old.columns@.len() ==> {
                let c = #[trigger] old.columns@[i];
                if c.head_y_milli + rain_step(c, dt_ms) > (old.h + c.length) * 1000 {
                    newborn(new.columns@[i], old.h)
                } else {
                    fallen(c, new.columns@[i], dt_ms)
                }
            }
    }

    /// Lets `dt_ms` milliseconds pass: every column falls; a column whose
    /// head is past the bottom by more than its trail is reborn, any other
    /// changes one random glyph one time in 20.
    pub fn tick(&mut self, dt_ms: u32)
        requires
            old(self).wf(),
        ensures
            final(self).wf(),
            Rain::after_tick(*old(self), *final(self), dt_ms),
    {
        let mut rng = new_rng();
        let h = self.h;
        let mut old_cols: Vec<Column> = Vec::new();
        std::mem::swap(&mut old_cols, &mut self.columns);
        let ghost before = old_cols@;
        let n = old_cols.len();
        let mut cols: Vec<Column> = Vec::new();
        let mut i: usize = 0;
        while i < n
            invariant
                n == before.len(),
                old_cols@ == before,
                h >= 1,
                i <= n,
                forall|j: int| 0 <= j < before.len() ==> column_ok(#[trigger] before[j], h),
                cols@.len() == i,
                forall|j: int| 0 <= j < i ==> column_ok(#[trigger] cols@[j], h),
                forall|j: int|
                    0 <= j < i ==> {
                        let c = #[trigger] before[j];
                        if c.head_y_milli + rain_step(c, dt_ms) > (h + c.length) * 1000 {
                            newborn(cols@[j], h)
                        } else {
                            fallen(c, cols@[j], dt_ms)
                        }
                    },
            decreases n - i,
        {
            let c = &old_cols[i];
            assert(column_ok(before[i as int], h));
            assert(c.speed_milli * (dt_ms as u64) <= 20000 * 0xffff_ffff) by (nonlinear_arith)
                requires
                    c.speed_milli < 20000,
                    dt_ms <= 0xffff_ffff,
            ;
            let step: u64 = c.speed_milli * (dt_ms as u64) / 1000;
            let head: i64 = c.head_y_milli + step as i64;
            let limit: i64 = ((h as i64) + (c.length as i64)) * 1000;
            if head > limit {
                cols.push(Self::fresh_column(&mut rng, h));
            } else {
                let mut chars = c.chars.clone();
                let ghost k: int = -1;
                if chance(&mut rng, 1, 20) {
                    let idx = below(&mut rng, chars.len() as u64) as usize;
                    let g = random_glyph(&mut rng);
                    chars.set(idx, g);
                    proof {
                        k = idx as int;
                    }
                }
                assert(same_but(c.chars@, chars@, k));
                cols.push(Column { head_y_milli: head, speed_milli: c.speed_milli, length: c.length, chars });
            }
            i = i + 1;
        }
        self.columns = cols;
    }
}

/// How bright a glyph of the backdrop shows.
#[derive(Clone, Copy, Debug, PartialEq, Eq, Structural)]
pub enum Shade {
    /// The head of a column.
    Bright,
    /// The first third of the trail.
    Mid,
    /// The rest of the trail.
    Dim,
}

/// A glyph to draw, at a position relative to the drawing area.
#[derive(Clone, Copy, Debug, PartialEq, Eq, Structural)]
pub struct RainCell {
    pub x: u16,
    pub y: u16,
    pub ch: char,
    pub shade: Shade,
}

/// The glyph that trail position `i` of column `c` (column `x` of the area)
/// draws in an area `height` rows high, if it is inside.
pub open spec fn trail_cell(c: Column, x: u16, i: int, height: u16) -> Option<RainCell> {
    let y = c.head_y_milli - i * 1000;
    if y < 0 || y >= height * 1000 {
        None
    } else {
        let yi = y / 1000;
        Some(
            RainCell {
                x,
                y: yi as u16,
                ch: c.chars@[yi % (c.chars@.len() as int)],
                shade: if i == 0 {
                    Shade::Bright
                } else if i < c.length / 3 {
                    Shade::Mid
                } else {
                    Shade::Dim
                },
            },
        )
    }
}

/// The glyphs of the first `k` trail positions of column `c`, head first.
pub open spec fn trail_cells(c: Column, x: u16, k: int, height: u16) -> Seq<RainCell>
    decreases k,
{
    if k <= 0 {
        Seq::empty()
    } else {
        let rest = trail_cells(c, x, k - 1, height);
        match trail_cell(c, x, k - 1, height) {
            Some(cell) => rest.push(cell),
            None => rest,
        }
    }
}

/// The glyphs of the first `k` columns of `cols`, column by column.
pub open spec fn rain_cells(cols: Seq<Column>, k: int, height: u16) -> Seq<RainCell>
    decreases k,
{
    if k <= 0 {
        Seq::empty()
    } else {
        rain_cells(cols, k - 1, height) + trail_cells(
            cols[k - 1],
            (k - 1) as u16,
            cols[k - 1].length as int,
            height,
        )
    }
}

impl Rain {
    /// The glyphs to draw in an area of `width` × `height` cells: for each
    /// column that fits, the part of its trail inside the area, the head
    /// bright, the first third of the trail mid, the rest dim.
    pub fn cells(&self, width: u16, height: u16) -> (r: Vec<RainCell>)
        requires
            self.wf(),
        ensures
            r@ == rain_cells(
                self.columns@,
                if self.columns@.len() < width {
                    self.columns@.len() as int
                } else {
                    width as int
                },
                height,
            ),
    {
        let n: usize = if self.columns.len() < width as usize {
            self.columns.len()
        } else {
            width as usize
        };
        let mut out: Vec<RainCell> = Vec::new();
        let mut cx: usize = 0;
        while cx < n
            invariant
                self.wf(),
                n <= self.columns@.len(),
                n <= width,
                cx <= n,
                out@ == rain_cells(self.columns@, cx as int, height),
            decreases n - cx,
        {
            let col = &self.columns[cx];
            assert(column_ok(self.columns@[cx as int], self.h));
            let ghost start = out@;
            let mut i: u16 = 0;
            while i < col.length
                invariant
                    column_ok(*col, self.h),
                    self.h >= 1,
                    cx < n <= width,
                    i <= col.length,
                    out@ == start + trail_cells(*col, cx as u16, i as int, height),
                decreases col.length - i,
            {
                let y: i64 = col.head_y_milli - (i as i64) * 1000;
                if !(y < 0 || y >= (height as i64) * 1000) {
                    let yi: i64 = y / 1000;
                    let ch = col.chars[(yi as usize) % col.chars.len()];
                    let shade = if i == 0 {
                        Shade::Bright
                    } else if i < col.length / 3 {
                        Shade::Mid
                    } else {
                        Shade::Dim
                    };
                    out.push(RainCell { x: cx as u16, y: yi as u16, ch, shade });
                    assert(out@ =~= start + trail_cells(*col, cx as u16, i + 1, height));
                } else {
                    assert(out@ =~= start + trail_cells(*col, cx as u16, i + 1, height));
                }
                i = i + 1;
            }
            cx = cx + 1;
        }
        out
    }
}

} // verus!
