use vstd::prelude::*;

use crate::layout::{
    code_rows, copy_chars, heading_size, image_scale, image_size, run_items, run_lines, sat_sub, source_lines,
    space_for, FontKind, Layout, Placed, BODY_SIZE, CODE_GAP, CODE_INDENT, CODE_SIZE,
    CONTENT_WIDTH, HEADING_GAP, IMAGE_GAP, LIST_GAP, MARGIN, PARAGRAPH_GAP, RULE_GAP, placed_all,
};
use crate::reduce::{command_view, Command, CommandView};
use crate::wrap::{texts, wrapped};

verus! {

pub open spec fn paragraph_effect(page: u64, cursor: u64, t: Seq<char>) -> (u64, u64, Seq<Placed>) {
    let (p, c, ops) = run_lines(
        page,
        cursor,
        wrapped(t, BODY_SIZE, CONTENT_WIDTH),
        FontKind::Regular,
        BODY_SIZE,
        MARGIN,
    );
    (p, sat_sub(c, PARAGRAPH_GAP), ops)
}

pub open spec fn heading_effect(page: u64, cursor: u64, level: u32, t: Seq<char>) -> (
    u64,
    u64,
    Seq<Placed>,
) {
    let size = heading_size(level);
    let (p, c, ops) = run_lines(
        page,
        cursor,
        wrapped(t, size, CONTENT_WIDTH),
        FontKind::Bold,
        size,
        MARGIN,
    );
    (p, sat_sub(c, HEADING_GAP), ops)
}

/// What laying out a command does from (`page`, `cursor`): the page and cursor
/// after, and what is drawn. An image is placed by `place_image`, not here.
pub open spec fn command_effect(page: u64, cursor: u64, cmd: CommandView) -> (u64, u64, Seq<Placed>) {
    match cmd {
        CommandView::Heading(level, t) => heading_effect(page, cursor, level, t),
        CommandView::Paragraph(t) => paragraph_effect(page, cursor, t),
        CommandView::List(items) => {
            let (p, c, ops) = run_items(page, cursor, items);
            (p, sat_sub(c, LIST_GAP), ops)
        },
        CommandView::CodeBlock(t) => {
            let (p, c, ops) = run_lines(
                page,
                cursor,
                code_rows(source_lines(t)),
                FontKind::Mono,
                CODE_SIZE,
                (MARGIN + CODE_INDENT) as u64,
            );
            (p, sat_sub(c, CODE_GAP), ops)
        },
        CommandView::Image(_) => (page, cursor, Seq::empty()),
        CommandView::Rule => (page, sat_sub(cursor, RULE_GAP), Seq::empty()),
    }
}

/// Where an image reference leads.
#[derive(Debug)]
pub enum ImageTarget {
    /// A web address: not fetched, nothing drawn.
    Remote,
    /// A file to read, at this path.
    Local(Vec<char>),
}

/// What reading an image file gave.
#[derive(Debug)]
pub enum ImageProbe {
    Missing,
    Unreadable(Vec<char>),
    Size(u32, u32),
}

/// Why a document could not be laid out.
#[derive(Debug)]
pub enum RenderError {
    /// An image file that does not exist, with its path.
    NotFound(Vec<char>),
    /// An image file that could not be read or decoded, with the reason.
    Io(Vec<char>),
}

pub open spec fn http_prefix() -> Seq<char> {
    seq!['h', 't', 't', 'p', ':', '/', '/']
}

pub open spec fn https_prefix() -> Seq<char> {
    seq!['h', 't', 't', 'p', 's', ':', '/', '/']
}

pub open spec fn starts_with(s: Seq<char>, p: Seq<char>) -> bool {
    p.len() <= s.len() && s.take(p.len() as int) == p
}

/// The directory part of a path: everything up to and including its last `/`,
/// empty when it has none.
pub open spec fn dir_prefix(s: Seq<char>) -> Seq<char>
    decreases s.len(),
{
    if s.len() == 0 {
        s
    } else if s.last() == '/' {
        s
    } else {
        dir_prefix(s.drop_last())
    }
}

/// Where image reference `dest` in the markdown file at `base` leads: a web
/// address is remote; an absolute path stands as it is; any other path is taken
/// relative to the directory of `base`.
pub open spec fn image_target_spec(base: Seq<char>, dest: Seq<char>) -> Option<Seq<char>> {
    if starts_with(dest, http_prefix()) || starts_with(dest, https_prefix()) {
        None
    } else if dest.len() > 0 && dest[0] == '/' {
        Some(dest)
    } else {
        Some(dir_prefix(base) + dest)
    }
}

fn has_prefix(s: &Vec<char>, p: &Vec<char>) -> (r: bool)
    ensures
        r == starts_with(s@, p@),
{
    if p.len() > s.len() {
        return false;
    }
    let mut i: usize = 0;
    while i < p.len()
        invariant
            i <= p@.len() <= s@.len(),
            s@.take(i as int) == p@.take(i as int),
        decreases p.len() - i,
    {
        if s[i] != p[i] {
            assert(s@.take(p@.len() as int)[i as int] != p@[i as int]);
            return false;
        }
        assert(s@.take(i as int + 1) =~= s@.take(i as int).push(s@[i as int]));
        assert(p@.take(i as int + 1) =~= p@.take(i as int).push(p@[i as int]));
        i += 1;
    }
    assert(p@.take(p@.len() as int) =~= p@);
    true
}

fn dir_prefix_len(s: &Vec<char>) -> (r: usize)
    ensures
        r <= s@.len(),
        dir_prefix(s@) == s@.take(r as int),
{
    let mut n: usize = s.len();
    assert(s@.take(n as int) =~= s@);
    while n > 0 && s[n - 1] != '/'
        invariant
            n <= s@.len(),
            dir_prefix(s@) == dir_prefix(s@.take(n as int)),
        decreases n,
    {
        assert(s@.take(n as int).drop_last() =~= s@.take(n as int - 1));
        n -= 1;
    }
    n
}

/// Resolves image reference `dest` of the markdown file at `base`.
pub fn image_target(base: &Vec<char>, dest: &Vec<char>) -> (r: ImageTarget)
    ensures
        match r {
            ImageTarget::Remote => image_target_spec(base@, dest@) is None,
            ImageTarget::Local(p) => image_target_spec(base@, dest@) == Some(p@),
        },
{
    let http: Vec<char> = vec!['h', 't', 't', 'p', ':', '/', '/'];
    let https: Vec<char> = vec!['h', 't', 't', 'p', 's', ':', '/', '/'];
    assert(http@ =~= http_prefix());
    assert(https@ =~= https_prefix());
    if has_prefix(dest, &http) || has_prefix(dest, &https) {
        return ImageTarget::Remote;
    }
    if dest.len() > 0 && dest[0] == '/' {
        return ImageTarget::Local(copy_chars(dest));
    }
    let n = dir_prefix_len(base);
    let mut path: Vec<char> = Vec::new();
    let mut i: usize = 0;
    while i < n
        invariant
            i <= n <= base@.len(),
            path@ == base@.take(i as int),
        decreases n - i,
    {
        path.push(base[i]);
        i += 1;
        assert(path@ =~= base@.take(i as int));
    }
    let mut j: usize = 0;
    while j < dest.len()
        invariant
            j <= dest@.len(),
            path@ == base@.take(n as int) + dest@.take(j as int),
        decreases dest.len() - j,
    {
        path.push(dest[j]);
        j += 1;
        assert(path@ =~= base@.take(n as int) + dest@.take(j as int));
    }
    assert(dest@.take(dest@.len() as int) =~= dest@);
    ImageTarget::Local(path)
}

impl Layout {
    /// Lays out one command; an image command draws nothing here.
    pub fn apply(&mut self, cmd: &Command)
        requires
            old(self).wf(),
        ensures
            final(self).wf(),
            ({
                let (p, c, ops) = command_effect(
                    old(self).page,
                    old(self).cursor,
                    command_view(*cmd),
                );
                &&& final(self).page == p
                &&& final(self).cursor == c
                &&& placed_all(final(self).ops@) == placed_all(old(self).ops@) + ops
            }),
    {
        match cmd {
            Command::Heading(level, t) => self.heading(*level, t),
            Command::Paragraph(t) => self.paragraph(t),
            Command::List(items) => self.list(items),
            Command::CodeBlock(t) => self.code_block(t),
            Command::Image(_) => {
                assert(placed_all(self.ops@) =~= placed_all(self.ops@) + Seq::<Placed>::empty());
            },
            Command::Rule => {
                self.rule();
                assert(placed_all(self.ops@) =~= placed_all(self.ops@) + Seq::<Placed>::empty());
            },
        }
    }

    /// Places the image at `path` once it has been read: a missing file is
    /// `NotFound` and an unreadable one `Io`, with nothing drawn; otherwise the
    /// image is drawn as `image` draws it.
    pub fn place_image(&mut self, path: &Vec<char>, probe: ImageProbe) -> (r: Result<
        (),
        RenderError,
    >)
        requires
            old(self).wf(),
        ensures
            final(self).wf(),
            match probe {
                ImageProbe::Missing => r matches Err(RenderError::NotFound(p)) && p@ == path@
                    && *final(self) == *old(self),
                ImageProbe::Unreadable(m) => r matches Err(RenderError::Io(e)) && e@ == m@
                    && *final(self) == *old(self),
                ImageProbe::Size(w, h) => r is Ok && ({
                    let (iw, ih) = image_size(w, h);
                    let (n, d) = image_scale(w, h);
                    let (p, c) = space_for(old(self).page, old(self).cursor, (ih + IMAGE_GAP) as u64);
                    let y = (c - ih) as u64;
                    &&& final(self).page == p
                    &&& final(self).cursor == sat_sub(y, IMAGE_GAP)
                    &&& placed_all(final(self).ops@) == placed_all(old(self).ops@).push(
                        Placed::Image {
                            page: p,
                            x: MARGIN,
                            y,
                            width: iw,
                            height: ih,
                            scale_num: n,
                            scale_den: d,
                        },
                    )
                }),
            },
    {
        match probe {
            ImageProbe::Missing => Err(RenderError::NotFound(copy_chars(path))),
            ImageProbe::Unreadable(m) => Err(RenderError::Io(m)),
            ImageProbe::Size(w, h) => {
                self.image(w, h);
                Ok(())
            },
        }
    }
}

/// An image that refers to a web address is neither looked up nor drawn: it
/// resolves to no file, and its command leaves page, cursor and drawing as they
/// were.
pub proof fn lemma_remote_image_skipped(base: Seq<char>, dest: Seq<char>, page: u64, cursor: u64)
    requires
        starts_with(dest, http_prefix()) || starts_with(dest, https_prefix()),
    ensures
        image_target_spec(base, dest) is None,
        command_effect(page, cursor, CommandView::Image(dest)) == (page, cursor, Seq::<Placed>::empty()),
{
}

/// The last component of a path: what follows its last `/` once trailing `/`s
/// are dropped.
pub open spec fn file_name_of(s: Seq<char>) -> Seq<char>
    decreases s.len(),
{
    if s.len() > 0 && s.last() == '/' {
        file_name_of(s.drop_last())
    } else {
        s.skip(dir_prefix(s).len() as int)
    }
}

pub open spec fn file_label() -> Seq<char> {
    seq!['F', 'i', 'l', 'e', ':', ' ']
}

pub open spec fn fallback_title() -> Seq<char> {
    seq!['M', 'a', 'r', 'k', 'd', 'o', 'w', 'n', ' ', 'F', 'i', 'l', 'e']
}

/// The heading that opens a file's content: "File: " and the file's name, or a
/// fixed title where the path names no file (it is empty or ends in `..`).
pub open spec fn file_heading_spec(path: Seq<char>) -> Seq<char> {
    let n = file_name_of(path);
    if n.len() == 0 || n == seq!['.', '.'] {
        file_label() + fallback_title()
    } else {
        file_label() + n
    }
}

/// The bounds of the last component of `path` within it.
pub fn file_name_range(path: &Vec<char>) -> (r: (usize, usize))
    ensures
        r.0 <= r.1 <= path@.len(),
        file_name_of(path@) == path@.subrange(r.0 as int, r.1 as int),
{
    let mut end: usize = path.len();
    assert(path@.take(end as int) =~= path@);
    while end > 0 && path[end - 1] == '/'
        invariant
            end <= path@.len(),
            file_name_of(path@) == file_name_of(path@.take(end as int)),
        decreases end,
    {
        assert(path@.take(end as int).drop_last() =~= path@.take(end as int - 1));
        end -= 1;
    }
    let ghost t = path@.take(end as int);
    let mut start: usize = end;
    assert(t.take(start as int) =~= t);
    while start > 0 && path[start - 1] != '/'
        invariant
            start <= end <= path@.len(),
            t == path@.take(end as int),
            dir_prefix(t) == dir_prefix(t.take(start as int)),
        decreases start,
    {
        assert(t.take(start as int).drop_last() =~= t.take(start as int - 1));
        start -= 1;
    }
    assert(dir_prefix(t.take(start as int)) =~= t.take(start as int));
    assert(t.skip(start as int) =~= path@.subrange(start as int, end as int));
    (start, end)
}

/// The heading text that opens the content of the file at `path`.
pub fn file_heading(path: &Vec<char>) -> (r: Vec<char>)
    ensures
        r@ == file_heading_spec(path@),
{
    let (start, end) = file_name_range(path);
    let ghost name = path@.subrange(start as int, end as int);
    let mut r: Vec<char> = vec!['F', 'i', 'l', 'e', ':', ' '];
    assert(r@ =~= file_label());
    let is_dotdot = end - start == 2 && path[start] == '.' && path[start + 1] == '.';
    assert(is_dotdot == (name =~= seq!['.', '.']));
    if end == start || is_dotdot {
        let tail: Vec<char> = vec!['M', 'a', 'r', 'k', 'd', 'o', 'w', 'n', ' ', 'F', 'i', 'l', 'e'];
        assert(tail@ =~= fallback_title());
        let mut k: usize = 0;
        while k < tail.len()
            invariant
                k <= tail@.len(),
                r@ == file_label() + tail@.take(k as int),
            decreases tail.len() - k,
        {
            r.push(tail[k]);
            k += 1;
            assert(r@ =~= file_label() + tail@.take(k as int));
        }
        assert(tail@.take(tail@.len() as int) =~= tail@);
    } else {
        let mut k: usize = start;
        while k < end
            invariant
                start <= k <= end,
                end <= path@.len(),
                r@ == file_label() + path@.subrange(start as int, k as int),
            decreases end - k,
        {
            r.push(path[k]);
            k += 1;
            assert(r@ =~= file_label() + path@.subrange(start as int, k as int));
        }
    }
    r
}

impl Layout {
    /// Opens the content of the file at `path` with a level-2 heading that
    /// names the file.
    pub fn begin_file(&mut self, path: &Vec<char>)
        requires
            old(self).wf(),
        ensures
            final(self).wf(),
            ({
                let (p, c, ops) = heading_effect(
                    old(self).page,
                    old(self).cursor,
                    2,
                    file_heading_spec(path@),
                );
                &&& final(self).page == p
                &&& final(self).cursor == c
                &&& placed_all(final(self).ops@) == placed_all(old(self).ops@) + ops
            }),
    {
        let title = file_heading(path);
        self.heading(2, &title);
    }
}

} // verus!
