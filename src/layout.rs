use vstd::prelude::*;

use crate::wrap::{texts, wrap_text, wrapped};

verus! {

// Lengths are in layout units of 1/1828800 inch: a millimetre is 72000 units and
// a typographic point 25400, so every length below is exact.
pub const UNITS_PER_MM: u64 = 72000;

pub const UNITS_PER_PT: u64 = 25400;

/// One pixel at the reference resolution of 96 pixels per inch.
pub const UNITS_PER_PX: u64 = 19050;

/// 210 mm.
pub const PAGE_WIDTH: u64 = 15_120_000;

/// 297 mm.
pub const PAGE_HEIGHT: u64 = 21_384_000;

/// 15 mm on every side.
pub const MARGIN: u64 = 1_080_000;

/// Where writing starts on a fresh page: the page height less the margin.
pub const TOP: u64 = 20_304_000;

/// The page width less both margins.
pub const CONTENT_WIDTH: u64 = 12_960_000;

/// 120 mm.
pub const MAX_IMAGE_HEIGHT: u64 = 8_640_000;

/// 11 pt.
pub const BODY_SIZE: u64 = 279_400;

/// 9.5 pt.
pub const CODE_SIZE: u64 = 241_300;

/// 6 mm.
pub const LIST_INDENT: u64 = 432_000;

/// 4 mm.
pub const CODE_INDENT: u64 = 288_000;

/// 6 pt.
pub const PARAGRAPH_GAP: u64 = 152_400;

/// 8 pt.
pub const HEADING_GAP: u64 = 203_200;

/// 2 pt.
pub const ITEM_GAP: u64 = 50_800;

/// 4 pt.
pub const LIST_GAP: u64 = 101_600;

/// 6 pt.
pub const CODE_GAP: u64 = 152_400;

/// 6 pt.
pub const IMAGE_GAP: u64 = 152_400;

/// 8 pt.
pub const RULE_GAP: u64 = 203_200;

/// Characters per drawn code line: the code width (content width less the code
/// indent) over the width of a monospace character (0.6 of the code size), rounded
/// down: 12672000 * 10 / (241300 * 6) is 87.5.
pub const CODE_LINE_CHARS: usize = 87;

#[derive(Clone, Copy, Debug, PartialEq, Eq, Structural)]
pub enum FontKind {
    Regular,
    Bold,
    Mono,
}

/// A drawing operation on the page with index `page`; `x` and `y` are measured
/// from the page's lower left corner. Text is drawn with its baseline at `y`; an
/// image has its lower left corner at (`x`, `y`), is drawn at its size at the
/// reference resolution times `scale_num / scale_den`, and takes `width` by
/// `height` (that size rounded up).
#[derive(Debug)]
pub enum DrawOp {
    Text { page: u64, x: u64, y: u64, font: FontKind, size: u64, text: Vec<char> },
    Image {
        page: u64,
        x: u64,
        y: u64,
        width: u64,
        height: u64,
        scale_num: u64,
        scale_den: u64,
    },
}

/// What a drawing operation places, as plain values.
pub enum Placed {
    Text { page: u64, x: u64, y: u64, font: FontKind, size: u64, text: Seq<char> },
    Image {
        page: u64,
        x: u64,
        y: u64,
        width: u64,
        height: u64,
        scale_num: u64,
        scale_den: u64,
    },
}

pub open spec fn placed(op: DrawOp) -> Placed {
    match op {
        DrawOp::Text { page, x, y, font, size, text } => Placed::Text {
            page,
            x,
            y,
            font,
            size,
            text: text@,
        },
        DrawOp::Image { page, x, y, width, height, scale_num, scale_den } => Placed::Image {
            page,
            x,
            y,
            width,
            height,
            scale_num,
            scale_den,
        },
    }
}

pub open spec fn placed_all(ops: Seq<DrawOp>) -> Seq<Placed> {
    ops.map_values(|o: DrawOp| placed(o))
}

pub open spec fn line_height(size: u64) -> u64 {
    (size * 5 / 4) as u64
}

pub open spec fn sat_sub(a: u64, b: u64) -> u64 {
    if a >= b {
        (a - b) as u64
    } else {
        0
    }
}

pub open spec fn next_page(page: u64) -> u64 {
    if page < u64::MAX {
        (page + 1) as u64
    } else {
        page
    }
}

/// Where writing continues after reserving `height` at (`page`, `cursor`): on a
/// new page when less than `height` is left above the bottom margin.
pub open spec fn space_for(page: u64, cursor: u64, height: u64) -> (u64, u64) {
    if (cursor as int) - (height as int) < MARGIN as int {
        (next_page(page), TOP)
    } else {
        (page, cursor)
    }
}

/// Writing `lines` one below the other from (`page`, `cursor`), each line
/// reserving its height first: the page and cursor after, and the texts placed.
pub open spec fn run_lines(
    page: u64,
    cursor: u64,
    lines: Seq<Seq<char>>,
    font: FontKind,
    size: u64,
    x: u64,
) -> (u64, u64, Seq<Placed>)
    decreases lines.len(),
{
    if lines.len() == 0 {
        (page, cursor, Seq::empty())
    } else {
        let (p, c, ops) = run_lines(page, cursor, lines.drop_last(), font, size, x);
        let (pg2, c2) = space_for(p, c, line_height(size));
        (
            pg2,
            sat_sub(c2, line_height(size)),
            ops.push(Placed::Text { page: pg2, x, y: c2, font, size, text: lines.last() }),
        )
    }
}

pub open spec fn heading_size(level: u32) -> u64 {
    if level == 1 {
        609_600
    } else if level == 2 {
        457_200
    } else if level == 3 {
        355_600
    } else {
        304_800
    }
}

/// The bullet drawn before each list item.
pub open spec fn bullet() -> Seq<char> {
    seq!['\u{2022}']
}

/// Writing one list item: a bullet at the margin and the first wrapped line at
/// the indent on one baseline, the other lines below it at the indent.
pub open spec fn run_item(page: u64, cursor: u64, item: Seq<char>) -> (u64, u64, Seq<Placed>) {
    let lines = wrapped(item, BODY_SIZE, (CONTENT_WIDTH - LIST_INDENT) as u64);
    let lh = line_height(BODY_SIZE);
    let (pg1, c1) = space_for(page, cursor, lh);
    let first = seq![
        Placed::Text { page: pg1, x: MARGIN, y: c1, font: FontKind::Regular, size: BODY_SIZE, text: bullet() },
        Placed::Text {
            page: pg1,
            x: (MARGIN + LIST_INDENT) as u64,
            y: c1,
            font: FontKind::Regular,
            size: BODY_SIZE,
            text: lines[0],
        },
    ];
    let (pg2, c2, rest) = run_lines(
        pg1,
        sat_sub(c1, lh),
        lines.skip(1),
        FontKind::Regular,
        BODY_SIZE,
        (MARGIN + LIST_INDENT) as u64,
    );
    (pg2, sat_sub(c2, ITEM_GAP), first + rest)
}

pub open spec fn run_items(page: u64, cursor: u64, items: Seq<Seq<char>>) -> (u64, u64, Seq<Placed>)
    decreases items.len(),
{
    if items.len() == 0 {
        (page, cursor, Seq::empty())
    } else {
        let (p, c, ops) = run_items(page, cursor, items.drop_last());
        let (pg2, c2, ops2) = run_item(p, c, items.last());
        (pg2, c2, ops + ops2)
    }
}

/// A source line without the carriage return that ends it, if any.
pub open spec fn strip_cr(l: Seq<char>) -> Seq<char> {
    if l.len() > 0 && l.last() == '\r' {
        l.drop_last()
    } else {
        l
    }
}

/// Scanning code text left to right: the lines closed by a line feed, and the
/// line being read.
pub open spec fn scan_lines(s: Seq<char>) -> (Seq<Seq<char>>, Seq<char>)
    decreases s.len(),
{
    if s.len() == 0 {
        (Seq::empty(), Seq::empty())
    } else {
        let (ls, cur) = scan_lines(s.drop_last());
        if s.last() == '\n' {
            (ls.push(strip_cr(cur)), Seq::empty())
        } else {
            (ls, cur.push(s.last()))
        }
    }
}

/// The lines of `s` as `str::lines` gives them: split at line feeds, a carriage
/// return before a line feed dropped, no empty last line after a final line feed.
pub open spec fn source_lines(s: Seq<char>) -> Seq<Seq<char>> {
    let (ls, cur) = scan_lines(s);
    if cur.len() > 0 {
        ls.push(cur)
    } else {
        ls
    }
}

/// `l` cut into pieces of `n` characters, the last one shorter.
pub open spec fn pieces(l: Seq<char>, n: nat) -> Seq<Seq<char>>
    decreases l.len(),
{
    if l.len() == 0 || n == 0 {
        Seq::empty()
    } else if l.len() <= n {
        seq![l]
    } else {
        seq![l.take(n as int)] + pieces(l.skip(n as int), n)
    }
}

/// The drawn lines of one source line: its pieces, or a single empty line for
/// an empty source line, so that blank lines keep their height.
pub open spec fn chunks(l: Seq<char>, n: nat) -> Seq<Seq<char>> {
    if l.len() == 0 {
        seq![l]
    } else {
        pieces(l, n)
    }
}

/// The drawn lines of a code block: each source line cut into pieces that fit.
pub open spec fn code_rows(ls: Seq<Seq<char>>) -> Seq<Seq<char>>
    decreases ls.len(),
{
    if ls.len() == 0 {
        Seq::empty()
    } else {
        code_rows(ls.drop_last()) + chunks(ls.last(), CODE_LINE_CHARS as nat)
    }
}

/// The factor, as numerator and denominator, by which an image of `w` by `h`
/// pixels is scaled from its size at the reference resolution: first down to the
/// content width if it is wider, then further down to the largest image height
/// if it is still taller. One factor scales both sides, so the aspect ratio is
/// kept exactly.
pub open spec fn image_scale(w: u32, h: u32) -> (u64, u64) {
    let w0 = w as int * UNITS_PER_PX;
    let h0 = h as int * UNITS_PER_PX;
    if w0 > CONTENT_WIDTH {
        // After the first step the height is h0 * CONTENT_WIDTH / w0.
        if h0 * CONTENT_WIDTH > MAX_IMAGE_HEIGHT * w0 {
            (MAX_IMAGE_HEIGHT, h0 as u64)
        } else {
            (CONTENT_WIDTH, w0 as u64)
        }
    } else if h0 > MAX_IMAGE_HEIGHT {
        (MAX_IMAGE_HEIGHT, h0 as u64)
    } else {
        (1, 1)
    }
}

pub open spec fn ceil_div(a: int, b: int) -> int {
    (a + b - 1) / b
}

/// The room an image of `w` by `h` pixels takes: its scaled width and height,
/// rounded up to whole units.
pub open spec fn image_size(w: u32, h: u32) -> (u64, u64) {
    let (n, d) = image_scale(w, h);
    (
        ceil_div(w as int * UNITS_PER_PX * n, d as int) as u64,
        ceil_div(h as int * UNITS_PER_PX * n, d as int) as u64,
    )
}

/// The layout state: the index of the current page, the cursor (the height of
/// the next baseline above the page's bottom edge) and what has been drawn.
pub struct Layout {
    pub page: u64,
    pub cursor: u64,
    pub ops: Vec<DrawOp>,
}

impl Layout {
    pub open spec fn wf(&self) -> bool {
        self.cursor <= TOP
    }

    /// An empty document of one page, with the cursor at the top margin.
    pub fn new() -> (r: Layout)
        ensures
            r.wf(),
            r.page == 0,
            r.cursor == TOP,
            r.ops@.len() == 0,
    {
        Layout { page: 0, cursor: TOP, ops: Vec::new() }
    }

    /// The number of pages drawn on so far.
    pub fn page_count(&self) -> (r: u64)
        ensures
            r == next_page(self.page),
    {
        if self.page < u64::MAX {
            self.page + 1
        } else {
            self.page
        }
    }

    /// Starts a new page when less than `height` is left above the bottom margin.
    pub fn ensure_space(&mut self, height: u64)
        requires
            old(self).wf(),
        ensures
            final(self).wf(),
            (final(self).page, final(self).cursor) == space_for(
                old(self).page,
                old(self).cursor,
                height,
            ),
            final(self).ops@ == old(self).ops@,
    {
        if height > self.cursor || self.cursor - height < MARGIN {
            if self.page < u64::MAX {
                self.page = self.page + 1;
            }
            self.cursor = TOP;
        }
    }

    /// Moves the cursor down by `gap`, not below the page's bottom edge.
    fn skip(&mut self, gap: u64)
        requires
            old(self).wf(),
        ensures
            final(self).wf(),
            final(self).page == old(self).page,
            final(self).cursor == sat_sub(old(self).cursor, gap),
            final(self).ops@ == old(self).ops@,
    {
        self.cursor = if self.cursor >= gap {
            self.cursor - gap
        } else {
            0
        };
    }

    /// Wraps `text` at the content width in the regular body font and writes it.
    pub fn paragraph(&mut self, text: &Vec<char>)
        requires
            old(self).wf(),
        ensures
            final(self).wf(),
            ({
                let (p, c, ops) = run_lines(
                    old(self).page,
                    old(self).cursor,
                    wrapped(text@, BODY_SIZE, CONTENT_WIDTH),
                    FontKind::Regular,
                    BODY_SIZE,
                    MARGIN,
                );
                &&& final(self).page == p
                &&& final(self).cursor == sat_sub(c, PARAGRAPH_GAP)
                &&& placed_all(final(self).ops@) == placed_all(old(self).ops@) + ops
            }),
    {
        let lines = wrap_text(text, BODY_SIZE, CONTENT_WIDTH);
        self.write_lines(&lines, 0, FontKind::Regular, BODY_SIZE, MARGIN);
        assert(texts(lines@).skip(0) =~= texts(lines@));
        self.skip(PARAGRAPH_GAP);
    }

    /// Wraps `text` at the content width in bold, at the size of its level, and
    /// writes it.
    pub fn heading(&mut self, level: u32, text: &Vec<char>)
        requires
            old(self).wf(),
        ensures
            final(self).wf(),
            ({
                let size = heading_size(level);
                let (p, c, ops) = run_lines(
                    old(self).page,
                    old(self).cursor,
                    wrapped(text@, size, CONTENT_WIDTH),
                    FontKind::Bold,
                    size,
                    MARGIN,
                );
                &&& final(self).page == p
                &&& final(self).cursor == sat_sub(c, HEADING_GAP)
                &&& placed_all(final(self).ops@) == placed_all(old(self).ops@) + ops
            }),
    {
        let size: u64 = if level == 1 {
            609_600
        } else if level == 2 {
            457_200
        } else if level == 3 {
            355_600
        } else {
            304_800
        };
        let lines = wrap_text(text, size, CONTENT_WIDTH);
        self.write_lines(&lines, 0, FontKind::Bold, size, MARGIN);
        assert(texts(lines@).skip(0) =~= texts(lines@));
        self.skip(HEADING_GAP);
    }

    fn list_item(&mut self, item: &Vec<char>)
        requires
            old(self).wf(),
        ensures
            final(self).wf(),
            ({
                let (p, c, ops) = run_item(old(self).page, old(self).cursor, item@);
                &&& final(self).page == p
                &&& final(self).cursor == c
                &&& placed_all(final(self).ops@) == placed_all(old(self).ops@) + ops
            }),
    {
        let lines = wrap_text(item, BODY_SIZE, CONTENT_WIDTH - LIST_INDENT);
        let lh: u64 = BODY_SIZE * 5 / 4;
        self.ensure_space(lh);
        let ghost before = self.ops@;
        let mut bullet_text: Vec<char> = Vec::new();
        bullet_text.push('\u{2022}');
        self.ops.push(
            DrawOp::Text {
                page: self.page,
                x: MARGIN,
                y: self.cursor,
                font: FontKind::Regular,
                size: BODY_SIZE,
                text: bullet_text,
            },
        );
        let first = copy_chars(&lines[0]);
        self.ops.push(
            DrawOp::Text {
                page: self.page,
                x: MARGIN + LIST_INDENT,
                y: self.cursor,
                font: FontKind::Regular,
                size: BODY_SIZE,
                text: first,
            },
        );
        proof {
            assert(placed_all(self.ops@) =~= placed_all(before) + placed_all(
                self.ops@.subrange(before.len() as int, self.ops@.len() as int),
            ));
            assert(self.ops@[before.len() as int + 0] == self.ops@.subrange(
                before.len() as int,
                self.ops@.len() as int,
            )[0]);
            assert(texts(lines@)[0] == lines@[0]@);
            assert(bullet_text@ =~= bullet());
        }
        self.skip(lh);
        let ghost mid = self.ops@;
        self.write_lines(&lines, 1, FontKind::Regular, BODY_SIZE, MARGIN + LIST_INDENT);
        self.skip(ITEM_GAP);
        proof {
            let (p, c, ops) = run_item(old(self).page, old(self).cursor, item@);
            let two = placed_all(mid).subrange(before.len() as int, mid.len() as int);
            assert(placed_all(mid) =~= placed_all(before) + two);
            assert(placed_all(before) == placed_all(old(self).ops@));
            assert(two =~= seq![placed(mid[before.len() as int]), placed(mid[before.len() as int + 1])]);
        }
    }

    /// Writes the items as a bulleted list, each item wrapped at the content width
    /// less the list indent.
    pub fn list(&mut self, items: &Vec<Vec<char>>)
        requires
            old(self).wf(),
        ensures
            final(self).wf(),
            ({
                let (p, c, ops) = run_items(old(self).page, old(self).cursor, texts(items@));
                &&& final(self).page == p
                &&& final(self).cursor == sat_sub(c, LIST_GAP)
                &&& placed_all(final(self).ops@) == placed_all(old(self).ops@) + ops
            }),
    {
        let mut i: usize = 0;
        while i < items.len()
            invariant
                i <= items.len(),
                self.wf(),
                ({
                    let (p, c, ops) = run_items(
                        old(self).page,
                        old(self).cursor,
                        texts(items@).take(i as int),
                    );
                    &&& self.page == p
                    &&& self.cursor == c
                    &&& placed_all(self.ops@) == placed_all(old(self).ops@) + ops
                }),
            decreases items.len() - i,
        {
            proof {
                assert(texts(items@).take(i as int + 1).drop_last() =~= texts(items@).take(
                    i as int,
                ));
            }
            let ghost before = self.ops@;
            self.list_item(&items[i]);
            proof {
                let (p, c, ops) = run_items(
                    old(self).page,
                    old(self).cursor,
                    texts(items@).take(i as int),
                );
                let (pg2, c2, ops2) = run_item(p, c, items@[i as int]@);
                assert(placed_all(old(self).ops@) + (ops + ops2) =~= (placed_all(old(self).ops@)
                    + ops) + ops2);
            }
            i += 1;
        }
        proof {
            assert(texts(items@).take(items@.len() as int) =~= texts(items@));
        }
        self.skip(LIST_GAP);
    }

    /// Writes code text line for line in the monospace font at the code indent,
    /// each source line cut into pieces of at most `CODE_LINE_CHARS` characters.
    pub fn code_block(&mut self, text: &Vec<char>)
        requires
            old(self).wf(),
        ensures
            final(self).wf(),
            ({
                let (p, c, ops) = run_lines(
                    old(self).page,
                    old(self).cursor,
                    code_rows(source_lines(text@)),
                    FontKind::Mono,
                    CODE_SIZE,
                    (MARGIN + CODE_INDENT) as u64,
                );
                &&& final(self).page == p
                &&& final(self).cursor == sat_sub(c, CODE_GAP)
                &&& placed_all(final(self).ops@) == placed_all(old(self).ops@) + ops
            }),
    {
        let rows = code_block_rows(text);
        self.write_lines(&rows, 0, FontKind::Mono, CODE_SIZE, MARGIN + CODE_INDENT);
        assert(texts(rows@).skip(0) =~= texts(rows@));
        self.skip(CODE_GAP);
    }

    /// Draws an image of `width_px` by `height_px` pixels at the margin below the
    /// cursor, at the size `image_size` gives, on a new page if it does not fit.
    pub fn image(&mut self, width_px: u32, height_px: u32)
        requires
            old(self).wf(),
        ensures
            final(self).wf(),
            ({
                let (w, h) = image_size(width_px, height_px);
                let (n, d) = image_scale(width_px, height_px);
                let (p, c) = space_for(old(self).page, old(self).cursor, (h + IMAGE_GAP) as u64);
                let y = (c - h) as u64;
                &&& h <= MAX_IMAGE_HEIGHT
                &&& c >= h
                &&& final(self).page == p
                &&& final(self).cursor == sat_sub(y, IMAGE_GAP)
                &&& placed_all(final(self).ops@) == placed_all(old(self).ops@).push(
                    Placed::Image {
                        page: p,
                        x: MARGIN,
                        y,
                        width: w,
                        height: h,
                        scale_num: n,
                        scale_den: d,
                    },
                )
            }),
    {
        let (n, d) = image_scale_exec(width_px, height_px);
        let (w, h) = image_size_exec(width_px, height_px);
        self.ensure_space(h + IMAGE_GAP);
        let y = self.cursor - h;
        let ghost before = self.ops@;
        self.ops.push(
            DrawOp::Image {
                page: self.page,
                x: MARGIN,
                y,
                width: w,
                height: h,
                scale_num: n,
                scale_den: d,
            },
        );
        assert(placed_all(self.ops@) =~= placed_all(before).push(placed(self.ops@.last())));
        self.cursor = y;
        self.skip(IMAGE_GAP);
    }

    /// A horizontal rule: a fixed gap, nothing drawn.
    pub fn rule(&mut self)
        requires
            old(self).wf(),
        ensures
            final(self).wf(),
            final(self).page == old(self).page,
            final(self).cursor == sat_sub(old(self).cursor, RULE_GAP),
            final(self).ops@ == old(self).ops@,
    {
        self.skip(RULE_GAP);
    }

    fn write_lines(
        &mut self,
        lines: &Vec<Vec<char>>,
        from: usize,
        font: FontKind,
        size: u64,
        x: u64,
    )
        requires
            old(self).wf(),
            size <= 1_000_000,
            from <= lines@.len(),

        ensures
            final(self).wf(),
            ({
                let (p, c, ops) = run_lines(
                    old(self).page,
                    old(self).cursor,
                    texts(lines@).skip(from as int),
                    font,
                    size,
                    x,
                );
                &&& final(self).page == p
                &&& final(self).cursor == c
                &&& placed_all(final(self).ops@) == placed_all(old(self).ops@) + ops
            }),
    {
        let lh = size * 5 / 4;
        let mut i: usize = from;
        proof {
            assert(texts(lines@).subrange(from as int, from as int) =~= Seq::<Seq<char>>::empty());
        }
        while i < lines.len()
            invariant
                from <= i,
                i <= lines.len(),
                self.wf(),
                lh == line_height(size),
                ({
                    let (p, c, ops) = run_lines(
                        old(self).page,
                        old(self).cursor,
                        texts(lines@).subrange(from as int, i as int),
                        font,
                        size,
                        x,
                    );
                    &&& self.page == p
                    &&& self.cursor == c
                    &&& placed_all(self.ops@) == placed_all(old(self).ops@) + ops
                }),
            decreases lines.len() - i,
        {
            proof {
                assert(texts(lines@).subrange(from as int, i as int + 1).drop_last()
                    =~= texts(lines@).subrange(from as int, i as int));
            }
            self.ensure_space(lh);
            let text = copy_chars(&lines[i]);
            let ghost before = self.ops@;
            self.ops.push(DrawOp::Text { page: self.page, x, y: self.cursor, font, size, text });
            proof {
                let (p, c, ops) = run_lines(
                    old(self).page,
                    old(self).cursor,
                    texts(lines@).subrange(from as int, i as int),
                    font,
                    size,
                    x,
                );
                assert(placed_all(self.ops@) =~= placed_all(before).push(
                    placed(self.ops@.last()),
                ));
                assert(placed_all(old(self).ops@) + ops.push(placed(self.ops@.last())) =~= (
                placed_all(old(self).ops@) + ops).push(placed(self.ops@.last())));
            }
            self.cursor = if self.cursor >= lh {
                self.cursor - lh
            } else {
                0
            };
            i += 1;
        }
        proof {
            assert(texts(lines@).subrange(from as int, i as int) =~= texts(lines@).skip(
                from as int,
            ));
        }
    }
}

fn copy_range(src: &Vec<char>, a: usize, b: usize) -> (r: Vec<char>)
    requires
        a <= b <= src@.len(),
    ensures
        r@ == src@.subrange(a as int, b as int),
{
    let mut r: Vec<char> = Vec::new();
    let mut i: usize = a;
    while i < b
        invariant
            a <= i <= b,
            b <= src@.len(),
            r@ == src@.subrange(a as int, i as int),
        decreases b - i,
    {
        r.push(src[i]);
        i += 1;
        assert(r@ =~= src@.subrange(a as int, i as int));
    }
    r
}

/// Splits code text into its source lines.
pub fn split_source_lines(text: &Vec<char>) -> (r: Vec<Vec<char>>)
    ensures
        texts(r@) == source_lines(text@),
{
    let mut lines: Vec<Vec<char>> = Vec::new();
    let mut cur: Vec<char> = Vec::new();
    let mut i: usize = 0;
    while i < text.len()
        invariant
            i <= text.len(),
            (texts(lines@), cur@) == scan_lines(text@.take(i as int)),
        decreases text.len() - i,
    {
        let c = text[i];
        proof {
            assert(text@.take(i as int + 1).drop_last() =~= text@.take(i as int));
        }
        if c == '\n' {
            let n = cur.len();
            if n > 0 && cur[n - 1] == '\r' {
                cur.pop();
            }
            let ghost before = lines@;
            lines.push(cur);
            assert(texts(lines@) =~= texts(before).push(lines@.last()@));
            cur = Vec::new();
        } else {
            cur.push(c);
        }
        i += 1;
    }
    assert(text@.take(text.len() as int) =~= text@);
    if cur.len() > 0 {
        let ghost before = lines@;
        lines.push(cur);
        assert(texts(lines@) =~= texts(before).push(cur@));
    }
    lines
}

/// Appends to `out` the drawn lines of source line `line`: its pieces of `n`
/// characters each, the last one shorter, or one empty line.
fn push_chunks(out: &mut Vec<Vec<char>>, line: &Vec<char>, n: usize)
    requires
        n > 0,
    ensures
        texts(final(out)@) == texts(old(out)@) + chunks(line@, n as nat),
{
    if line.len() == 0 {
        let ghost before = out@;
        let empty: Vec<char> = Vec::new();
        assert(empty@ =~= line@);
        out.push(empty);
        assert(texts(out@) =~= texts(before).push(line@));
        assert(texts(before).push(line@) =~= texts(before) + seq![line@]);
        return;
    }
    let mut start: usize = 0;
    assert(line@.skip(0) =~= line@);
    while start < line.len()
        invariant
            start <= line@.len(),
            n > 0,
            texts(out@) + pieces(line@.skip(start as int), n as nat) == texts(old(out)@) + pieces(
                line@,
                n as nat,
            ),
        decreases line.len() - start,
    {
        let rest_len = line.len() - start;
        let end = if rest_len <= n {
            line.len()
        } else {
            start + n
        };
        let piece = copy_range(line, start, end);
        let ghost before = out@;
        let ghost rest = line@.skip(start as int);
        out.push(piece);
        proof {
            assert(texts(out@) =~= texts(before).push(piece@));
            if rest_len <= n {
                assert(piece@ =~= rest);
                assert(line@.skip(end as int) =~= Seq::<char>::empty());
                assert(pieces(rest, n as nat) == seq![rest]);
                assert(texts(before) + seq![rest] =~= texts(before).push(rest));
            } else {
                assert(piece@ =~= rest.take(n as int));
                assert(rest.skip(n as int) =~= line@.skip(end as int));
                assert(texts(before) + (seq![rest.take(n as int)] + pieces(rest.skip(n as int), n as nat))
                    =~= texts(before).push(piece@) + pieces(line@.skip(end as int), n as nat));
            }
        }
        start = end;
    }
    assert(line@.skip(start as int) =~= Seq::<char>::empty());
    assert(texts(out@) + Seq::<Seq<char>>::empty() =~= texts(out@));
}

/// The drawn lines of a code block.
pub fn code_block_rows(text: &Vec<char>) -> (r: Vec<Vec<char>>)
    ensures
        texts(r@) == code_rows(source_lines(text@)),
{
    let lines = split_source_lines(text);
    let mut rows: Vec<Vec<char>> = Vec::new();
    let mut i: usize = 0;
    while i < lines.len()
        invariant
            i <= lines.len(),
            texts(lines@) == source_lines(text@),
            texts(rows@) == code_rows(texts(lines@).take(i as int)),
        decreases lines.len() - i,
    {
        proof {
            assert(texts(lines@).take(i as int + 1).drop_last() =~= texts(lines@).take(i as int));
        }
        push_chunks(&mut rows, &lines[i], CODE_LINE_CHARS);
        i += 1;
    }
    assert(texts(lines@).take(lines@.len() as int) =~= texts(lines@));
    rows
}

proof fn lemma_ceil_le(x: int, d: int, m: int)
    requires
        0 <= x,
        0 < d,
        x <= m * d,
    ensures
        0 <= ceil_div(x, d) <= m,
{
    let q = (x + d - 1) / d;
    lemma_floor_bounds(x + d - 1, d);
    vstd::arithmetic::div_mod::lemma_div_pos_is_pos(x + d - 1, d);
    assert(q <= m) by (nonlinear_arith)
        requires
            q * d <= x + d - 1,
            x <= m * d,
            0 < d,
    ;
}

/// Facts on the scale: its denominator is positive, and the scaled image fits
/// both the content width and the largest image height.
proof fn lemma_scale_fits(w: u32, h: u32)
    ensures
        ({
            let (n, d) = image_scale(w, h);
            let w0 = w as int * UNITS_PER_PX;
            let h0 = h as int * UNITS_PER_PX;
            &&& d > 0
            &&& n <= d
            &&& n * w0 <= CONTENT_WIDTH * d
            &&& n * h0 <= MAX_IMAGE_HEIGHT * d
        }),
{
    let w0 = w as int * UNITS_PER_PX;
    let h0 = h as int * UNITS_PER_PX;
    let cw = CONTENT_WIDTH as int;
    let mh = MAX_IMAGE_HEIGHT as int;
    if w0 > cw {
        if h0 * cw > mh * w0 {
            assert(h0 > mh) by (nonlinear_arith)
                requires
                    h0 * cw > mh * w0,
                    w0 > cw,
                    cw > 0,
                    mh > 0,
            ;
            assert(mh * w0 <= cw * h0) by (nonlinear_arith)
                requires
                    h0 * cw > mh * w0,
            ;
            assert(mh * h0 <= mh * h0);
        } else {
            assert(cw * h0 <= mh * w0) by (nonlinear_arith)
                requires
                    h0 * cw <= mh * w0,
            ;
        }
    } else if h0 > mh {
        assert(mh * w0 <= cw * h0) by (nonlinear_arith)
            requires
                w0 <= cw,
                mh < h0,
                0 <= w0,
                mh > 0,
        ;
    }
}

/// The scale factor of an image of `w` by `h` pixels, as numerator and
/// denominator.
pub fn image_scale_exec(w: u32, h: u32) -> (r: (u64, u64))
    ensures
        r == image_scale(w, h),
{
    let w0: u64 = w as u64 * 19050;
    let h0: u64 = h as u64 * 19050;
    if w0 > 12_960_000 {
        if h0 as u128 * 12_960_000 > 8_640_000 * w0 as u128 {
            (8_640_000, h0)
        } else {
            (12_960_000, w0)
        }
    } else if h0 > 8_640_000 {
        (8_640_000, h0)
    } else {
        (1, 1)
    }
}

/// The room an image of `w` by `h` pixels takes on the page.
pub fn image_size_exec(w: u32, h: u32) -> (r: (u64, u64))
    ensures
        r == image_size(w, h),
        r.0 <= CONTENT_WIDTH,
        r.1 <= MAX_IMAGE_HEIGHT,
{
    let (n, d) = image_scale_exec(w, h);
    proof {
        lemma_scale_fits(w, h);
        let w0 = w as int * UNITS_PER_PX;
        let h0 = h as int * UNITS_PER_PX;
        assert(w0 * n == n * w0 && h0 * n == n * h0) by (nonlinear_arith);
        assert(0 <= w0 * n && 0 <= h0 * n) by (nonlinear_arith)
            requires
                0 <= w0,
                0 <= h0,
                0 <= n,
        ;
        lemma_ceil_le(w0 * n, d as int, CONTENT_WIDTH as int);
        lemma_ceil_le(h0 * n, d as int, MAX_IMAGE_HEIGHT as int);
        assert(w0 * n <= 0x1_0000_0000_0000 * 0x1_0000_0000) by (nonlinear_arith)
            requires
                w0 <= 0x1_0000_0000_0000,
                n <= 0x1_0000_0000,
                0 <= w0,
                0 <= n,
        ;
        assert(h0 * n <= 0x1_0000_0000_0000 * 0x1_0000_0000) by (nonlinear_arith)
            requires
                h0 <= 0x1_0000_0000_0000,
                n <= 0x1_0000_0000,
                0 <= h0,
                0 <= n,
        ;
    }
    let w0: u128 = w as u128 * 19050;
    let h0: u128 = h as u128 * 19050;
    let ow = (w0 * n as u128 + d as u128 - 1) / d as u128;
    let oh = (h0 * n as u128 + d as u128 - 1) / d as u128;
    (ow as u64, oh as u64)
}

pub(crate) fn copy_chars(src: &Vec<char>) -> (r: Vec<char>)
    ensures
        r@ == src@,
{
    let mut r: Vec<char> = Vec::new();
    let mut i: usize = 0;
    while i < src.len()
        invariant
            i <= src.len(),
            r@ == src@.take(i as int),
        decreases src.len() - i,
    {
        r.push(src[i]);
        i += 1;
        assert(r@ =~= src@.take(i as int));
    }
    assert(src@.take(src.len() as int) =~= src@);
    r
}

/// Reserving the same height twice in a row starts at most one page: the second
/// reservation changes nothing, provided the height fits on a fresh page.
pub proof fn lemma_ensure_space_idempotent(page: u64, cursor: u64, height: u64)
    requires
        cursor <= TOP,
        height <= TOP - MARGIN,
    ensures
        ({
            let (pg1, c1) = space_for(page, cursor, height);
            space_for(pg1, c1, height) == (pg1, c1)
        }),
{
}

proof fn lemma_run_lines_facts(
    page: u64,
    cursor: u64,
    lines: Seq<Seq<char>>,
    font: FontKind,
    size: u64,
    x: u64,
)
    requires
        cursor <= TOP,
        line_height(size) <= TOP - MARGIN,
    ensures
        ({
            let (p, c, ops) = run_lines(page, cursor, lines, font, size, x);
            &&& ops.len() == lines.len()
            &&& forall|k: int|
                0 <= k < lines.len() ==> (#[trigger] ops[k] matches Placed::Text {
                    text,
                    ..
                } && text == lines[k])
            &&& p >= page
            &&& c <= TOP
            &&& (p == page && page < u64::MAX) ==> c + lines.len() * line_height(size) == cursor
                && (lines.len() > 0 ==> c >= MARGIN)
        }),
    decreases lines.len(),
{
    if lines.len() > 0 {
        let lh = line_height(size);
        lemma_run_lines_facts(page, cursor, lines.drop_last(), font, size, x);
        let (p, c, ops) = run_lines(page, cursor, lines.drop_last(), font, size, x);
        let (pg2, c2) = space_for(p, c, lh);
        let (pg3, c3, ops3) = run_lines(page, cursor, lines, font, size, x);
        assert forall|k: int| 0 <= k < lines.len() implies (#[trigger] ops3[k] matches Placed::Text {
            text,
            ..
        } && text == lines[k]) by {
            if k < lines.len() - 1 {
                assert(ops3[k] == ops[k]);
            }
        }
        if pg3 == page && page < u64::MAX {
            assert(p == page);
            assert(c2 == c);
            let n = lines.len() as int;
            assert(c3 == c - lh);
            assert((n - 1) * lh + lh == n * lh) by (nonlinear_arith);
        }
    }
}

/// A paragraph whose wrapped lines take more height than is left above the
/// bottom margin runs onto a later page, and every wrapped line is drawn, in
/// order.
pub proof fn lemma_paragraph_breaks_page(text: Seq<char>, page: u64, cursor: u64)
    requires
        cursor <= TOP,
        page as int + wrapped(text, BODY_SIZE, CONTENT_WIDTH).len() < u64::MAX,
        wrapped(text, BODY_SIZE, CONTENT_WIDTH).len() * line_height(BODY_SIZE) > cursor
            - MARGIN,
    ensures
        ({
            let lines = wrapped(text, BODY_SIZE, CONTENT_WIDTH);
            let (p, c, ops) = run_lines(
                page,
                cursor,
                lines,
                FontKind::Regular,
                BODY_SIZE,
                MARGIN,
            );
            &&& p > page
            &&& ops.len() == lines.len()
            &&& forall|k: int|
                0 <= k < lines.len() ==> (#[trigger] ops[k] matches Placed::Text {
                    text,
                    ..
                } && text == lines[k])
        }),
{
    let lines = wrapped(text, BODY_SIZE, CONTENT_WIDTH);
    lemma_run_lines_facts(page, cursor, lines, FontKind::Regular, BODY_SIZE, MARGIN);
}

proof fn lemma_floor_bounds(n: int, d: int)
    requires
        0 <= n,
        0 < d,
    ensures
        (n / d) * d <= n < (n / d + 1) * d,
{
    vstd::arithmetic::div_mod::lemma_fundamental_div_mod(n, d);
    vstd::arithmetic::div_mod::lemma_mod_bound(n, d);
    assert((n / d) * d == d * (n / d)) by (nonlinear_arith);
    assert((n / d + 1) * d == d * (n / d) + d) by (nonlinear_arith);
}

/// Image scaling: one factor scales both sides, so the aspect ratio is kept
/// exactly. It never enlarges, and the scaled image fits both the content width
/// and the largest image height; it is the largest such factor (scaling to the
/// width first and then to the height gives the same factor as fitting both at
/// once). An image wider than the content width comes out exactly that wide
/// unless it is then still too tall, in which case it comes out exactly as tall
/// as the largest image height.
pub proof fn lemma_image_fit(w: u32, h: u32)
    ensures
        ({
            let (n, d) = image_scale(w, h);
            let w0 = w as int * UNITS_PER_PX;
            let h0 = h as int * UNITS_PER_PX;
            &&& d > 0
            &&& n <= d
            &&& n * w0 <= CONTENT_WIDTH * d
            &&& n * h0 <= MAX_IMAGE_HEIGHT * d
            &&& (n == d || n * w0 == CONTENT_WIDTH * d || n * h0 == MAX_IMAGE_HEIGHT * d)
            &&& (w0 > CONTENT_WIDTH && h0 * CONTENT_WIDTH <= MAX_IMAGE_HEIGHT * w0) ==> n * w0
                == CONTENT_WIDTH * d
            &&& (w0 > CONTENT_WIDTH && h0 * CONTENT_WIDTH > MAX_IMAGE_HEIGHT * w0) ==> n * h0
                == MAX_IMAGE_HEIGHT * d
            &&& (w0 <= CONTENT_WIDTH && h0 > MAX_IMAGE_HEIGHT) ==> n * h0 == MAX_IMAGE_HEIGHT * d
            &&& (w0 <= CONTENT_WIDTH && h0 <= MAX_IMAGE_HEIGHT) ==> n == 1 && d == 1
        }),
{
    lemma_scale_fits(w, h);
    let (n, d) = image_scale(w, h);
    let w0 = w as int * UNITS_PER_PX;
    let h0 = h as int * UNITS_PER_PX;
    assert(n * w0 == w0 * n && n * h0 == h0 * n) by (nonlinear_arith);
}

} // verus!
