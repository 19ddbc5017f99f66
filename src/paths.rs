use vstd::prelude::*;

use crate::layout::copy_chars;
use crate::render::{dir_prefix, file_name_of, file_name_range};
use crate::wrap::texts;

verus! {

/// What input discovery found: the markdown files and image files under the
/// inputs, and the directory the output is written to.
pub struct ProcessedInput {
    pub markdown_files: Vec<String>,
    pub image_files: Vec<String>,
    pub root: String,
}

/// Where the finished document was written.
pub struct ConvertResult {
    pub output_path: String,
}

/// Why a conversion cannot start.
#[derive(Debug, Clone, Copy, PartialEq, Eq, Structural)]
pub enum InputError {
    /// No input path was given.
    NoInputPaths,
    /// The inputs hold no markdown file.
    NoMarkdownFiles,
}

/// Discovery needs at least one input path.
pub fn check_input_paths(input_paths: &Vec<String>) -> (r: Result<(), InputError>)
    ensures
        r == (if input_paths@.len() == 0 {
            Err(InputError::NoInputPaths)
        } else {
            Ok(())
        }),
{
    if input_paths.len() == 0 {
        Err(InputError::NoInputPaths)
    } else {
        Ok(())
    }
}

/// Conversion needs at least one markdown file.
pub fn check_convertible(input: &ProcessedInput) -> (r: Result<(), InputError>)
    ensures
        r == (if input.markdown_files@.len() == 0 {
            Err(InputError::NoMarkdownFiles)
        } else {
            Ok(())
        }),
{
    if input.markdown_files.len() == 0 {
        Err(InputError::NoMarkdownFiles)
    } else {
        Ok(())
    }
}

/// Everything of `n` up to and including its last `.`, empty when it has none.
pub open spec fn dot_prefix(n: Seq<char>) -> Seq<char>
    decreases n.len(),
{
    if n.len() == 0 || n.last() == '.' {
        n
    } else {
        dot_prefix(n.drop_last())
    }
}

/// The extension of a path as `Path::extension` gives it: what follows the last
/// `.` of the file name, where that `.` is not its first character; none for
/// `..`.
pub open spec fn extension_of(path: Seq<char>) -> Option<Seq<char>> {
    let n = file_name_of(path);
    let d = dot_prefix(n);
    if n == seq!['.', '.'] || d.len() <= 1 {
        None
    } else {
        Some(n.skip(d.len() as int))
    }
}

pub open spec fn is_markdown_spec(path: Seq<char>) -> bool {
    extension_of(path) == Some(seq!['m', 'd']) || extension_of(path) == Some(
        seq!['m', 'a', 'r', 'k', 'd', 'o', 'w', 'n'],
    )
}

pub open spec fn is_image_spec(path: Seq<char>) -> bool {
    extension_of(path) == Some(seq!['p', 'n', 'g']) || extension_of(path) == Some(
        seq!['j', 'p', 'g'],
    ) || extension_of(path) == Some(seq!['j', 'p', 'e', 'g']) || extension_of(path) == Some(
        seq!['g', 'i', 'f'],
    ) || extension_of(path) == Some(seq!['w', 'e', 'b', 'p']) || extension_of(path) == Some(
        seq!['b', 'm', 'p'],
    )
}

fn range_equals(s: &Vec<char>, a: usize, b: usize, lit: &Vec<char>) -> (r: bool)
    requires
        a <= b <= s@.len(),
    ensures
        r == (s@.subrange(a as int, b as int) == lit@),
{
    if b - a != lit.len() {
        return false;
    }
    let mut i: usize = 0;
    while i < lit.len()
        invariant
            i <= lit@.len(),
            b - a == lit@.len(),
            a <= b <= s@.len(),
            forall|k: int| 0 <= k < i ==> s@[a + k] == lit@[k],
        decreases lit.len() - i,
    {
        if s[a + i] != lit[i] {
            assert(s@.subrange(a as int, b as int)[i as int] != lit@[i as int]);
            return false;
        }
        i += 1;
    }
    assert(s@.subrange(a as int, b as int) =~= lit@);
    true
}

/// The bounds of the extension of `path` within it, if it has one.
fn extension_range(path: &Vec<char>) -> (r: Option<(usize, usize)>)
    ensures
        match r {
            None => extension_of(path@) is None,
            Some((a, b)) => a <= b <= path@.len() && extension_of(path@) == Some(
                path@.subrange(a as int, b as int),
            ),
        },
{
    let (start, end) = file_name_range(path);
    let ghost n = path@.subrange(start as int, end as int);
    if end - start == 2 && path[start] == '.' && path[start + 1] == '.' {
        assert(n =~= seq!['.', '.']);
        return None;
    }
    assert(!(n =~= seq!['.', '.']));
    let mut k: usize = end;
    assert(n.take((k - start) as int) =~= n);
    while k > start && path[k - 1] != '.'
        invariant
            start <= k <= end,
            end <= path@.len(),
            n == path@.subrange(start as int, end as int),
            dot_prefix(n) == dot_prefix(n.take((k - start) as int)),
        decreases k,
    {
        assert(n.take((k - start) as int).drop_last() =~= n.take((k - start) as int - 1));
        k -= 1;
    }
    assert(dot_prefix(n.take((k - start) as int)) =~= n.take((k - start) as int));
    if k - start <= 1 {
        None
    } else {
        assert(n.skip((k - start) as int) =~= path@.subrange(k as int, end as int));
        Some((k, end))
    }
}

/// Whether `path` names a markdown file: its extension is `md` or `markdown`.
pub fn is_markdown(path: &Vec<char>) -> (r: bool)
    ensures
        r == is_markdown_spec(path@),
{
    let md: Vec<char> = vec!['m', 'd'];
    let markdown: Vec<char> = vec!['m', 'a', 'r', 'k', 'd', 'o', 'w', 'n'];
    assert(md@ =~= seq!['m', 'd']);
    assert(markdown@ =~= seq!['m', 'a', 'r', 'k', 'd', 'o', 'w', 'n']);
    match extension_range(path) {
        None => false,
        Some((a, b)) => range_equals(path, a, b, &md) || range_equals(path, a, b, &markdown),
    }
}

/// Whether `path` names an image file: its extension is `png`, `jpg`, `jpeg`,
/// `gif`, `webp` or `bmp`.
pub fn is_image(path: &Vec<char>) -> (r: bool)
    ensures
        r == is_image_spec(path@),
{
    let png: Vec<char> = vec!['p', 'n', 'g'];
    let jpg: Vec<char> = vec!['j', 'p', 'g'];
    let jpeg: Vec<char> = vec!['j', 'p', 'e', 'g'];
    let gif: Vec<char> = vec!['g', 'i', 'f'];
    let webp: Vec<char> = vec!['w', 'e', 'b', 'p'];
    let bmp: Vec<char> = vec!['b', 'm', 'p'];
    assert(png@ =~= seq!['p', 'n', 'g']);
    assert(jpg@ =~= seq!['j', 'p', 'g']);
    assert(jpeg@ =~= seq!['j', 'p', 'e', 'g']);
    assert(gif@ =~= seq!['g', 'i', 'f']);
    assert(webp@ =~= seq!['w', 'e', 'b', 'p']);
    assert(bmp@ =~= seq!['b', 'm', 'p']);
    match extension_range(path) {
        None => false,
        Some((a, b)) => range_equals(path, a, b, &png) || range_equals(path, a, b, &jpg)
            || range_equals(path, a, b, &jpeg) || range_equals(path, a, b, &gif)
            || range_equals(path, a, b, &webp) || range_equals(path, a, b, &bmp),
    }
}

/// Whether `path` names a zip archive: its extension is `zip`.
pub fn is_zip(path: &Vec<char>) -> (r: bool)
    ensures
        r == (extension_of(path@) == Some(seq!['z', 'i', 'p'])),
{
    let zip: Vec<char> = vec!['z', 'i', 'p'];
    assert(zip@ =~= seq!['z', 'i', 'p']);
    match extension_range(path) {
        None => false,
        Some((a, b)) => range_equals(path, a, b, &zip),
    }
}

pub open spec fn strip_slashes(s: Seq<char>) -> Seq<char>
    decreases s.len(),
{
    if s.len() > 0 && s.last() == '/' {
        strip_slashes(s.drop_last())
    } else {
        s
    }
}

/// The directory that holds `p`, as `Path::parent` gives it, or `.` where it
/// has none (`p` is empty or the root).
pub open spec fn parent_dir(p: Seq<char>) -> Seq<char> {
    let t = strip_slashes(p);
    if t.len() == 0 {
        seq!['.']
    } else {
        let d = dir_prefix(t);
        if d.len() == 0 {
            d
        } else if strip_slashes(d).len() == 0 {
            seq!['/']
        } else {
            strip_slashes(d)
        }
    }
}

fn strip_slashes_len(s: &Vec<char>, upto: usize) -> (r: usize)
    requires
        upto <= s@.len(),
    ensures
        r <= upto,
        strip_slashes(s@.take(upto as int)) == s@.take(r as int),
{
    let mut n: usize = upto;
    while n > 0 && s[n - 1] == '/'
        invariant
            n <= upto <= s@.len(),
            strip_slashes(s@.take(upto as int)) == strip_slashes(s@.take(n as int)),
        decreases n,
    {
        assert(s@.take(n as int).drop_last() =~= s@.take(n as int - 1));
        n -= 1;
    }
    n
}

/// The directory of the file at `p`.
pub fn parent_of(p: &Vec<char>) -> (r: Vec<char>)
    ensures
        r@ == parent_dir(p@),
{
    assert(p@.take(p@.len() as int) =~= p@);
    let end = strip_slashes_len(p, p.len());
    let ghost t = p@.take(end as int);
    if end == 0 {
        let r: Vec<char> = vec!['.'];
        assert(r@ =~= seq!['.']);
        return r;
    }
    let mut start: usize = end;
    assert(t.take(start as int) =~= t);
    while start > 0 && p[start - 1] != '/'
        invariant
            start <= end <= p@.len(),
            t == p@.take(end as int),
            dir_prefix(t) == dir_prefix(t.take(start as int)),
        decreases start,
    {
        assert(t.take(start as int).drop_last() =~= t.take(start as int - 1));
        start -= 1;
    }
    assert(dir_prefix(t.take(start as int)) =~= t.take(start as int));
    assert(t.take(start as int) =~= p@.take(start as int));
    if start == 0 {
        return Vec::new();
    }
    let q = strip_slashes_len(p, start);
    if q == 0 {
        let r: Vec<char> = vec!['/'];
        assert(r@ =~= seq!['/']);
        return r;
    }
    let mut r: Vec<char> = Vec::new();
    let mut i: usize = 0;
    while i < q
        invariant
            i <= q <= p@.len(),
            r@ == p@.take(i as int),
        decreases q - i,
    {
        r.push(p[i]);
        i += 1;
        assert(r@ =~= p@.take(i as int));
    }
    r
}

/// The directory an input contributes to the choice of output directory: the
/// directory that holds it for a file or an archive, the input itself for a
/// directory.
pub fn input_output_dir(p: &Vec<char>, is_file: bool) -> (r: Vec<char>)
    ensures
        r@ == (if is_file {
            parent_dir(p@)
        } else {
            p@
        }),
{
    if is_file {
        parent_of(p)
    } else {
        copy_chars(p)
    }
}

/// Whether a segment between separators is a component: not empty, and not a
/// `.` other than a leading one of a relative path.
pub open spec fn keep_segment(seg: Seq<char>, rooted: bool, n_before: int) -> bool {
    seg.len() > 0 && !(seg == seq!['.'] && (rooted || n_before > 0))
}

pub open spec fn scan_components(s: Seq<char>, rooted: bool) -> (Seq<Seq<char>>, Seq<char>)
    decreases s.len(),
{
    if s.len() == 0 {
        (Seq::empty(), Seq::empty())
    } else {
        let (ws, cur) = scan_components(s.drop_last(), rooted);
        if s.last() == '/' {
            if keep_segment(cur, rooted, ws.len() as int) {
                (ws.push(cur), Seq::empty())
            } else {
                (ws, Seq::empty())
            }
        } else {
            (ws, cur.push(s.last()))
        }
    }
}

/// The components of a path as `Path::components` reads a Unix path: `/` for a
/// leading root, then the non-empty segments between separators, without `.`
/// segments other than a leading one of a relative path.
pub open spec fn components(p: Seq<char>) -> Seq<Seq<char>> {
    let rooted = p.len() > 0 && p[0] == '/';
    let (ws, cur) = scan_components(p, rooted);
    let segs = if keep_segment(cur, rooted, ws.len() as int) {
        ws.push(cur)
    } else {
        ws
    };
    if rooted {
        seq![seq!['/']] + segs
    } else {
        segs
    }
}

/// The number of leading positions below `n` at which `a` and `b` agree.
pub open spec fn first_diff(a: Seq<Seq<char>>, b: Seq<Seq<char>>, n: int) -> int
    decreases n,
{
    if n <= 0 {
        0
    } else {
        let k = first_diff(a, b, n - 1);
        if k < n - 1 {
            k
        } else if a[n - 1] != b[n - 1] {
            n - 1
        } else {
            n
        }
    }
}

/// The length of the common leading components of `first` and each of `others`.
pub open spec fn common_len(first: Seq<Seq<char>>, others: Seq<Seq<Seq<char>>>) -> int
    decreases others.len(),
{
    if others.len() == 0 {
        first.len() as int
    } else {
        let c = common_len(first, others.drop_last());
        let m = if c < others.last().len() {
            c
        } else {
            others.last().len() as int
        };
        first_diff(first, others.last(), m)
    }
}

/// Components put together again as `PathBuf::push` does.
pub open spec fn join_components(cs: Seq<Seq<char>>) -> Seq<char>
    decreases cs.len(),
{
    if cs.len() == 0 {
        Seq::empty()
    } else {
        let acc = join_components(cs.drop_last());
        if acc.len() == 0 {
            cs.last()
        } else if acc.last() == '/' {
            acc + cs.last()
        } else {
            acc + seq!['/'] + cs.last()
        }
    }
}

/// The deepest common ancestor of `paths`, by components; none when the list is
/// empty or the paths share no leading component.
pub open spec fn common_root_spec(paths: Seq<Seq<char>>) -> Option<Seq<char>> {
    if paths.len() == 0 {
        None
    } else {
        let first = components(paths[0]);
        let n = common_len(first, paths.skip(1).map_values(|p: Seq<char>| components(p)));
        if n == 0 {
            None
        } else {
            Some(join_components(first.take(n)))
        }
    }
}

fn chars_equal(a: &Vec<char>, b: &Vec<char>) -> (r: bool)
    ensures
        r == (a@ == b@),
{
    if a.len() != b.len() {
        return false;
    }
    let mut i: usize = 0;
    while i < a.len()
        invariant
            i <= a@.len(),
            a@.len() == b@.len(),
            forall|k: int| 0 <= k < i ==> a@[k] == b@[k],
        decreases a.len() - i,
    {
        if a[i] != b[i] {
            return false;
        }
        i += 1;
    }
    assert(a@ =~= b@);
    true
}

/// The components of `p`.
pub fn path_components(p: &Vec<char>) -> (r: Vec<Vec<char>>)
    ensures
        texts(r@) == components(p@),
{
    let rooted = p.len() > 0 && p[0] == '/';
    let mut segs: Vec<Vec<char>> = Vec::new();
    let mut cur: Vec<char> = Vec::new();
    let mut i: usize = 0;
    while i < p.len()
        invariant
            i <= p@.len(),
            rooted == (p@.len() > 0 && p@[0] == '/'),
            (texts(segs@), cur@) == scan_components(p@.take(i as int), rooted),
        decreases p.len() - i,
    {
        let c = p[i];
        assert(p@.take(i as int + 1).drop_last() =~= p@.take(i as int));
        if c == '/' {
            let dot = cur.len() == 1 && cur[0] == '.';
            assert(dot == (cur@ =~= seq!['.']));
            if cur.len() > 0 && !(dot && (rooted || segs.len() > 0)) {
                let ghost before = segs@;
                segs.push(cur);
                assert(texts(segs@) =~= texts(before).push(segs@.last()@));
            }
            cur = Vec::new();
        } else {
            cur.push(c);
        }
        i += 1;
    }
    assert(p@.take(p@.len() as int) =~= p@);
    let dot = cur.len() == 1 && cur[0] == '.';
    assert(dot == (cur@ =~= seq!['.']));
    if cur.len() > 0 && !(dot && (rooted || segs.len() > 0)) {
        let ghost before = segs@;
        segs.push(cur);
        assert(texts(segs@) =~= texts(before).push(segs@.last()@));
    }
    if rooted {
        let mut r: Vec<Vec<char>> = Vec::new();
        let slash: Vec<char> = vec!['/'];
        assert(slash@ =~= seq!['/']);
        r.push(slash);
        let mut k: usize = 0;
        assert(texts(r@) =~= seq![seq!['/']] + texts(segs@).take(0));
        while k < segs.len()
            invariant
                k <= segs@.len(),
                texts(r@) == seq![seq!['/']] + texts(segs@).take(k as int),
            decreases segs.len() - k,
        {
            let ghost before = r@;
            r.push(copy_chars(&segs[k]));
            k += 1;
            assert(texts(r@) =~= texts(before).push(r@.last()@));
            assert(texts(segs@).take(k as int) =~= texts(segs@).take(k as int - 1).push(
                segs@[k as int - 1]@,
            ));
            assert(texts(r@) =~= seq![seq!['/']] + texts(segs@).take(k as int));
        }
        assert(texts(segs@).take(segs@.len() as int) =~= texts(segs@));
        r
    } else {
        segs
    }
}

/// The deepest common ancestor of `paths`, by components; `None` when `paths`
/// is empty or the paths share no leading component.
pub fn common_root(paths: &Vec<Vec<char>>) -> (r: Option<Vec<char>>)
    ensures
        match r {
            None => common_root_spec(paths@.map_values(|p: Vec<char>| p@)) is None,
            Some(v) => common_root_spec(paths@.map_values(|p: Vec<char>| p@)) == Some(v@),
        },
{
    let ghost ps = paths@.map_values(|p: Vec<char>| p@);
    if paths.len() == 0 {
        return None;
    }
    let first = path_components(&paths[0]);
    let ghost fv = texts(first@);
    let ghost others = ps.skip(1).map_values(|p: Seq<char>| components(p));
    let mut common: usize = first.len();
    let mut j: usize = 1;
    while j < paths.len()
        invariant
            1 <= j <= paths@.len(),
            ps == paths@.map_values(|p: Vec<char>| p@),
            fv == texts(first@),
            fv == components(ps[0]),
            others == ps.skip(1).map_values(|p: Seq<char>| components(p)),
            common as int == common_len(fv, others.take(j - 1)),
            common <= first@.len(),
        decreases paths.len() - j,
    {
        let comps = path_components(&paths[j]);
        let ghost cv = texts(comps@);
        assert(others.take(j as int).drop_last() =~= others.take(j - 1));
        assert(others.take(j as int).last() == cv);
        let m: usize = if common < comps.len() {
            common
        } else {
            comps.len()
        };
        let mut i: usize = 0;
        loop
            invariant
                i <= m,
                m <= first@.len(),
                m <= comps@.len(),
                first_diff(fv, cv, i as int) == i,
                fv == texts(first@),
                cv == texts(comps@),
            ensures
                i <= m,
                first_diff(fv, cv, i as int) == i,
                i < m ==> fv[i as int] != cv[i as int],
            decreases m - i,
        {
            if i >= m {
                break;
            }
            if !chars_equal(&first[i], &comps[i]) {
                break;
            }
            i += 1;
        }
        proof {
            lemma_first_diff_stops(fv, cv, i as int, m as int);
        }
        common = if i < m {
            i
        } else {
            m
        };
        j += 1;
    }
    assert(others.take(paths@.len() - 1) =~= others);
    if common == 0 {
        return None;
    }
    let mut acc: Vec<char> = Vec::new();
    let mut k: usize = 0;
    while k < common
        invariant
            k <= common <= first@.len(),
            fv == texts(first@),
            acc@ == join_components(fv.take(k as int)),
        decreases common - k,
    {
        assert(fv.take(k as int + 1).drop_last() =~= fv.take(k as int));
        let part = &first[k];
        if acc.len() == 0 {
            acc = copy_chars(part);
        } else if acc[acc.len() - 1] == '/' {
            let mut q: usize = 0;
            let ghost a0 = acc@;
            while q < part.len()
                invariant
                    q <= part@.len(),
                    acc@ == a0 + part@.take(q as int),
                decreases part.len() - q,
            {
                acc.push(part[q]);
                q += 1;
                assert(acc@ =~= a0 + part@.take(q as int));
            }
            assert(part@.take(part@.len() as int) =~= part@);
        } else {
            let ghost a0 = acc@;
            acc.push('/');
            let mut q: usize = 0;
            while q < part.len()
                invariant
                    q <= part@.len(),
                    acc@ == a0 + seq!['/'] + part@.take(q as int),
                decreases part.len() - q,
            {
                acc.push(part[q]);
                q += 1;
                assert(acc@ =~= a0 + seq!['/'] + part@.take(q as int));
            }
            assert(part@.take(part@.len() as int) =~= part@);
        }
        k += 1;
    }
    Some(acc)
}

/// The directory the output goes to, given one directory per input: their
/// common ancestor, unless there is none or it is the file system root, in which
/// case the first input's directory.
pub fn output_root(dirs: &Vec<Vec<char>>) -> (r: Option<Vec<char>>)
    ensures
        dirs@.len() == 0 <==> r is None,
        r matches Some(v) ==> ({
            let c = common_root_spec(dirs@.map_values(|p: Vec<char>| p@));
            if c is Some && c->0 != seq!['/'] {
                v@ == c->0
            } else {
                v@ == dirs@[0]@
            }
        }),
{
    if dirs.len() == 0 {
        return None;
    }
    match common_root(dirs) {
        Some(c) => {
            if c.len() == 1 && c[0] == '/' {
                assert(c@ =~= seq!['/']);
                Some(copy_chars(&dirs[0]))
            } else {
                assert(!(c@ =~= seq!['/']));
                Some(c)
            }
        },
        None => Some(copy_chars(&dirs[0])),
    }
}

proof fn lemma_first_diff_stops(a: Seq<Seq<char>>, b: Seq<Seq<char>>, i: int, m: int)
    requires
        0 <= i <= m,
        first_diff(a, b, i) == i,
        i < m ==> a[i] != b[i],
    ensures
        first_diff(a, b, m) == i,
    decreases m - i,
{
    if i < m {
        lemma_first_diff_stuck(a, b, i + 1, m, i);
    }
}

proof fn lemma_first_diff_stuck(a: Seq<Seq<char>>, b: Seq<Seq<char>>, n: int, m: int, i: int)
    requires
        0 <= i < n <= m,
        first_diff(a, b, i) == i,
        a[i] != b[i],
    ensures
        first_diff(a, b, m) == i,
    decreases m - n,
{
    assert(first_diff(a, b, i + 1) == i);
    lemma_first_diff_mono(a, b, i + 1, m, i);
}

proof fn lemma_first_diff_mono(a: Seq<Seq<char>>, b: Seq<Seq<char>>, n: int, m: int, i: int)
    requires
        0 <= i < n <= m,
        first_diff(a, b, n) == i,
    ensures
        first_diff(a, b, m) == i,
    decreases m - n,
{
    if n < m {
        assert(first_diff(a, b, n + 1) == i);
        lemma_first_diff_mono(a, b, n + 1, m, i);
    }
}

} // verus!
