use vstd::prelude::*;

verus! {

/// The character sequences held by a vector of character vectors.
pub open spec fn texts(v: Seq<Vec<char>>) -> Seq<Seq<char>> {
    v.map_values(|l: Vec<char>| l@)
}

/// The characters that `char::is_whitespace` accepts (Unicode White_Space).
pub open spec fn is_ws(c: char) -> bool {
    ('\u{9}' <= c && c <= '\u{d}') || c == ' ' || c == '\u{85}' || c == '\u{a0}' || c
        == '\u{1680}' || ('\u{2000}' <= c && c <= '\u{200a}') || c == '\u{2028}' || c
        == '\u{2029}' || c == '\u{202f}' || c == '\u{205f}' || c == '\u{3000}'
}

pub fn is_whitespace_char(c: char) -> (r: bool)
    ensures
        r == is_ws(c),
{
    ('\u{9}' <= c && c <= '\u{d}') || c == ' ' || c == '\u{85}' || c == '\u{a0}' || c
        == '\u{1680}' || ('\u{2000}' <= c && c <= '\u{200a}') || c == '\u{2028}' || c
        == '\u{2029}' || c == '\u{202f}' || c == '\u{205f}' || c == '\u{3000}'
}

/// Scanning `s` left to right: the words already closed, and the word being read.
pub open spec fn scan_words(s: Seq<char>) -> (Seq<Seq<char>>, Seq<char>)
    decreases s.len(),
{
    if s.len() == 0 {
        (Seq::empty(), Seq::empty())
    } else {
        let (ws, cur) = scan_words(s.drop_last());
        if is_ws(s.last()) {
            if cur.len() > 0 {
                (ws.push(cur), Seq::empty())
            } else {
                (ws, Seq::empty())
            }
        } else {
            (ws, cur.push(s.last()))
        }
    }
}

/// The maximal runs of non-whitespace characters of `s`, in order.
pub open spec fn words_of(s: Seq<char>) -> Seq<Seq<char>> {
    let (ws, cur) = scan_words(s);
    if cur.len() > 0 {
        ws.push(cur)
    } else {
        ws
    }
}

/// The words of `g` separated by single spaces.
pub open spec fn joined(g: Seq<Seq<char>>) -> Seq<char>
    decreases g.len(),
{
    if g.len() == 0 {
        Seq::empty()
    } else if g.len() == 1 {
        g[0]
    } else {
        joined(g.drop_last()) + seq![' '] + g.last()
    }
}

/// Greedy filling over a prefix of the words: the lines already closed, and the
/// words of the line being filled. A line holds at most `cap` characters unless
/// it holds a single word.
pub open spec fn greedy(ws: Seq<Seq<char>>, cap: int) -> (Seq<Seq<Seq<char>>>, Seq<Seq<char>>)
    decreases ws.len(),
{
    if ws.len() == 0 {
        (Seq::empty(), Seq::empty())
    } else {
        let (ls, cur) = greedy(ws.drop_last(), cap);
        let w = ws.last();
        if cur.len() > 0 && joined(cur).len() + 1 + w.len() > cap {
            (ls.push(cur), seq![w])
        } else {
            (ls, cur.push(w))
        }
    }
}

/// The groups of words that make up the wrapped lines.
pub open spec fn line_groups(ws: Seq<Seq<char>>, cap: int) -> Seq<Seq<Seq<char>>> {
    let (ls, cur) = greedy(ws, cap);
    if cur.len() > 0 {
        ls.push(cur)
    } else {
        ls
    }
}

/// Width model: a run of `n` characters at font size `size` is `n * size * 13 / 25`
/// long (an average character is 0.52 of the font size wide). This is the
/// largest `n` that fits in `max_width`, capped at `u64::MAX`.
pub open spec fn char_capacity(size: u64, max_width: u64) -> int {
    if size == 0 {
        u64::MAX as int
    } else {
        let c = (max_width as int * 25) / (size as int * 13);
        if c > u64::MAX {
            u64::MAX as int
        } else {
            c
        }
    }
}

/// The wrapped lines of `text`: never empty, a single empty line for a text
/// without words.
pub open spec fn wrapped(text: Seq<char>, size: u64, max_width: u64) -> Seq<Seq<char>> {
    let gs = line_groups(words_of(text), char_capacity(size, max_width));
    if gs.len() == 0 {
        seq![Seq::empty()]
    } else {
        gs.map_values(|g: Seq<Seq<char>>| joined(g))
    }
}

/// The concatenation of a sequence of groups.
pub open spec fn flatten_groups(gs: Seq<Seq<Seq<char>>>) -> Seq<Seq<char>>
    decreases gs.len(),
{
    if gs.len() == 0 {
        Seq::empty()
    } else {
        flatten_groups(gs.drop_last()) + gs.last()
    }
}

pub fn char_capacity_exec(size: u64, max_width: u64) -> (r: u64)
    ensures
        r as int == char_capacity(size, max_width),
{
    if size == 0 {
        u64::MAX
    } else {
        let c: u128 = (max_width as u128 * 25) / (size as u128 * 13);
        if c > u64::MAX as u128 {
            u64::MAX
        } else {
            c as u64
        }
    }
}

pub(crate) fn append_chars(dst: &mut Vec<char>, src: &Vec<char>)
    ensures
        final(dst)@ == old(dst)@ + src@,
{
    let mut i: usize = 0;
    while i < src.len()
        invariant
            i <= src.len(),
            dst@ == old(dst)@ + src@.subrange(0, i as int),
        decreases src.len() - i,
    {
        dst.push(src[i]);
        i += 1;
        assert(dst@ =~= old(dst)@ + src@.subrange(0, i as int));
    }
    assert(src@.subrange(0, src.len() as int) =~= src@);
}

/// Splits `text` into its words, as `str::split_whitespace` does.
pub fn split_words(text: &Vec<char>) -> (r: Vec<Vec<char>>)
    ensures
        texts(r@) == words_of(text@),
{
    let mut words: Vec<Vec<char>> = Vec::new();
    let mut cur: Vec<char> = Vec::new();
    let mut i: usize = 0;
    while i < text.len()
        invariant
            i <= text.len(),
            (texts(words@), cur@) == scan_words(text@.subrange(0, i as int)),
        decreases text.len() - i,
    {
        let c = text[i];
        proof {
            assert(text@.subrange(0, i as int + 1).drop_last() =~= text@.subrange(0, i as int));
        }
        if is_whitespace_char(c) {
            if cur.len() > 0 {
                let ghost before = words@;
                words.push(cur);
                assert(texts(words@) =~= texts(before).push(cur@));
                cur = Vec::new();
            }
        } else {
            cur.push(c);
        }
        i += 1;
    }
    assert(text@.subrange(0, text.len() as int) =~= text@);
    if cur.len() > 0 {
        let ghost before = words@;
        words.push(cur);
        assert(texts(words@) =~= texts(before).push(cur@));
    }
    words
}

/// Greedy word wrap of `text` at font size `size` into lines no wider than
/// `max_width` (lengths in layout units), a longer word standing alone.
pub fn wrap_text(text: &Vec<char>, size: u64, max_width: u64) -> (r: Vec<Vec<char>>)
    ensures
        texts(r@) == wrapped(text@, size, max_width),
        r@.len() >= 1,
{
    let cap = char_capacity_exec(size, max_width);
    let words = split_words(text);
    let ghost ws = texts(words@);
    let mut lines: Vec<Vec<char>> = Vec::new();
    let mut current: Vec<char> = Vec::new();
    let mut n_in_line: usize = 0;
    let ghost mut group: Seq<Seq<char>> = Seq::empty();
    let mut i: usize = 0;
    while i < words.len()
        invariant
            i <= words.len(),
            ws == texts(words@),
            ws.len() == words@.len(),
            greedy(ws.take(i as int), cap as int).1 == group,
            texts(lines@) == greedy(ws.take(i as int), cap as int).0.map_values(
                |g: Seq<Seq<char>>| joined(g),
            ),
            current@ == joined(group),
            n_in_line as int == group.len(),
            n_in_line <= i,
        decreases words.len() - i,
    {
        let word = &words[i];
        assert(ws.take(i as int + 1).drop_last() =~= ws.take(i as int));
        assert(ws.take(i as int + 1).last() == word@);
        if n_in_line > 0 && current.len() as u128 + 1 + word.len() as u128 > cap as u128 {
            let ghost before = lines@;
            let ghost gs = greedy(ws.take(i as int), cap as int).0;
            lines.push(current);
            assert(texts(lines@) =~= texts(before).push(joined(group)));
            assert(gs.push(group).map_values(|g: Seq<Seq<char>>| joined(g)) =~= gs.map_values(
                |g: Seq<Seq<char>>| joined(g),
            ).push(joined(group)));
            current = Vec::new();
            append_chars(&mut current, word);
            n_in_line = 1;
            proof {
                group = seq![word@];
                assert(current@ =~= joined(group));
            }
        } else {
            if n_in_line > 0 {
                current.push(' ');
            }
            append_chars(&mut current, word);
            n_in_line = n_in_line + 1;
            proof {
                let old_group = group;
                group = group.push(word@);
                assert(group.drop_last() =~= old_group);
                if old_group.len() == 0 {
                    assert(current@ =~= joined(group));
                } else {
                    assert(current@ =~= joined(group));
                }
            }
        }
        i += 1;
    }
    assert(ws.take(words.len() as int) =~= ws);
    if n_in_line > 0 {
        let ghost before = lines@;
        let ghost gs = greedy(ws, cap as int).0;
        lines.push(current);
        assert(texts(lines@) =~= texts(before).push(joined(group)));
        assert(gs.push(group).map_values(|g: Seq<Seq<char>>| joined(g)) =~= gs.map_values(
            |g: Seq<Seq<char>>| joined(g),
        ).push(joined(group)));
    }
    if lines.len() == 0 {
        lines.push(Vec::new());
        assert(texts(lines@) =~= seq![Seq::<char>::empty()]);
    }
    lines
}

proof fn lemma_greedy_keeps_words(ws: Seq<Seq<char>>, cap: int)
    ensures
        flatten_groups(greedy(ws, cap).0) + greedy(ws, cap).1 == ws,
    decreases ws.len(),
{
    if ws.len() > 0 {
        lemma_greedy_keeps_words(ws.drop_last(), cap);
        let (ls, cur) = greedy(ws.drop_last(), cap);
        let w = ws.last();
        if cur.len() > 0 && joined(cur).len() + 1 + w.len() > cap {
            assert(ls.push(cur).drop_last() =~= ls);
            assert(flatten_groups(ls.push(cur)) + seq![w] =~= ws);
        } else {
            assert(flatten_groups(ls) + cur == ws.drop_last());
            assert(flatten_groups(ls) + cur.push(w) =~= (flatten_groups(ls) + cur).push(w));
            assert(ws.drop_last().push(w) =~= ws);
        }
    } else {
        assert(flatten_groups(greedy(ws, cap).0) + greedy(ws, cap).1 =~= ws);
    }
}

/// Wrapping keeps the words: the lines are the single-space joins of groups of
/// words that, read in order, are exactly the words of the text, with nothing
/// left out or repeated.
pub proof fn lemma_wrap_keeps_words(text: Seq<char>, size: u64, max_width: u64)
    ensures
        flatten_groups(line_groups(words_of(text), char_capacity(size, max_width))) == words_of(
            text,
        ),
        words_of(text).len() > 0 ==> wrapped(text, size, max_width) == line_groups(
            words_of(text),
            char_capacity(size, max_width),
        ).map_values(|g: Seq<Seq<char>>| joined(g)),
{
    let ws = words_of(text);
    let cap = char_capacity(size, max_width);
    lemma_greedy_keeps_words(ws, cap);
    let (ls, cur) = greedy(ws, cap);
    if cur.len() > 0 {
        assert(ls.push(cur).drop_last() =~= ls);
    } else {
        assert(flatten_groups(ls) =~= flatten_groups(ls) + cur);
    }
    if ws.len() > 0 {
        let gs = line_groups(ws, cap);
        assert(gs.len() > 0) by {
            if gs.len() == 0 {
                assert(flatten_groups(gs) =~= Seq::<Seq<char>>::empty());
            }
        }
    }
}

/// A group fits when its line holds at most `cap` characters or it is one word.
pub open spec fn group_fits(g: Seq<Seq<char>>, cap: int) -> bool {
    joined(g).len() <= cap || g.len() == 1
}

proof fn lemma_greedy_fits(ws: Seq<Seq<char>>, cap: int)
    ensures
        forall|k: int|
            0 <= k < greedy(ws, cap).0.len() ==> group_fits(#[trigger] greedy(ws, cap).0[k], cap),
        greedy(ws, cap).1.len() > 0 ==> group_fits(greedy(ws, cap).1, cap),
    decreases ws.len(),
{
    if ws.len() > 0 {
        lemma_greedy_fits(ws.drop_last(), cap);
        let (ls, cur) = greedy(ws.drop_last(), cap);
        let w = ws.last();
        if cur.len() > 0 && joined(cur).len() + 1 + w.len() > cap {
            assert(joined(seq![w]) == w);
        } else {
            assert(cur.push(w).drop_last() =~= cur);
        }
    }
}

proof fn lemma_within_capacity(n: int, size: u64, max_width: u64)
    requires
        0 <= n <= char_capacity(size, max_width),
        size > 0,
    ensures
        n * size * 13 <= max_width * 25,
{
    let d = size as int * 13;
    let m = max_width as int * 25;
    let q = m / d;
    vstd::arithmetic::div_mod::lemma_fundamental_div_mod(m, d);
    vstd::arithmetic::mul::lemma_mul_inequality(n, q, d);
    assert(n <= q);
    assert(n * d <= q * d);
    vstd::arithmetic::div_mod::lemma_mod_bound(m, d);
    assert(q * d <= m) by (nonlinear_arith)
        requires
            m == d * q + m % d,
            m % d >= 0,
    ;
    assert(n * size * 13 == n * d) by (nonlinear_arith)
        requires
            d == size as int * 13,
    ;
}

/// Every wrapped line is at most `max_width` wide under the width model, except
/// a line that holds a single word.
pub proof fn lemma_wrap_width(text: Seq<char>, size: u64, max_width: u64)
    ensures
        ({
            let gs = line_groups(words_of(text), char_capacity(size, max_width));
            forall|k: int|
                0 <= k < gs.len() ==> (#[trigger] joined(gs[k])).len() * size * 13 <= max_width
                    * 25 || gs[k].len() == 1
        }),
{
    let ws = words_of(text);
    let cap = char_capacity(size, max_width);
    lemma_greedy_fits(ws, cap);
    let gs = line_groups(ws, cap);
    assert forall|k: int| 0 <= k < gs.len() implies (#[trigger] joined(gs[k])).len() * size * 13
        <= max_width * 25 || gs[k].len() == 1 by {
        let (ls, cur) = greedy(ws, cap);
        if k < ls.len() {
            assert(gs[k] == ls[k]);
        } else {
            assert(gs[k] == cur);
        }
        assert(group_fits(gs[k], cap));
        if gs[k].len() != 1 {
            if size > 0 {
                lemma_within_capacity(joined(gs[k]).len() as int, size, max_width);
            }
        }
    }
}

/// A word: non-empty, without whitespace.
pub open spec fn is_word(w: Seq<char>) -> bool {
    w.len() > 0 && forall|i: int| 0 <= i < w.len() ==> !is_ws(#[trigger] w[i])
}

proof fn lemma_scan_words_are_words(s: Seq<char>)
    ensures
        forall|k: int|
            0 <= k < scan_words(s).0.len() ==> is_word(#[trigger] scan_words(s).0[k]),
        forall|i: int| 0 <= i < scan_words(s).1.len() ==> !is_ws(#[trigger] scan_words(s).1[i]),
    decreases s.len(),
{
    if s.len() > 0 {
        lemma_scan_words_are_words(s.drop_last());
        let (ws, cur) = scan_words(s.drop_last());
        let c = s.last();
        if is_ws(c) {
            if cur.len() > 0 {
                assert(is_word(cur));
                assert forall|k: int| 0 <= k < ws.push(cur).len() implies is_word(
                    #[trigger] ws.push(cur)[k],
                ) by {
                    if k < ws.len() {
                        assert(ws.push(cur)[k] == ws[k]);
                    }
                }
            }
        } else {
            assert forall|i: int| 0 <= i < cur.push(c).len() implies !is_ws(
                #[trigger] cur.push(c)[i],
            ) by {
                if i < cur.len() {
                    assert(cur.push(c)[i] == cur[i]);
                }
            }
        }
    }
}

proof fn lemma_words_are_words(s: Seq<char>)
    ensures
        forall|k: int| 0 <= k < words_of(s).len() ==> is_word(#[trigger] words_of(s)[k]),
{
    lemma_scan_words_are_words(s);
}

proof fn lemma_scan_append_word(s: Seq<char>, w: Seq<char>)
    requires
        forall|i: int| 0 <= i < w.len() ==> !is_ws(#[trigger] w[i]),
    ensures
        scan_words(s + w) == (scan_words(s).0, scan_words(s).1 + w),
    decreases w.len(),
{
    if w.len() == 0 {
        assert(s + w =~= s);
        assert(scan_words(s).1 + w =~= scan_words(s).1);
    } else {
        lemma_scan_append_word(s, w.drop_last());
        assert((s + w).drop_last() =~= s + w.drop_last());
        assert(!is_ws(w[w.len() - 1]));
        assert((scan_words(s).1 + w.drop_last()).push(w.last()) =~= scan_words(s).1 + w);
    }
}

proof fn lemma_words_of_joined(g: Seq<Seq<char>>)
    requires
        forall|k: int| 0 <= k < g.len() ==> is_word(#[trigger] g[k]),
    ensures
        words_of(joined(g)) == g,
    decreases g.len(),
{
    if g.len() == 0 {
        assert(words_of(joined(g)) =~= g);
    } else {
        let w = g.last();
        assert(is_word(g[g.len() - 1]));
        if g.len() == 1 {
            lemma_scan_append_word(Seq::empty(), w);
            assert(Seq::<char>::empty() + w =~= w);
            assert(seq![w] =~= g);
        } else {
            let a = joined(g.drop_last());
            assert forall|k: int| 0 <= k < g.drop_last().len() implies is_word(
                #[trigger] g.drop_last()[k],
            ) by {
                assert(g.drop_last()[k] == g[k]);
            }
            lemma_words_of_joined(g.drop_last());
            let b = a + seq![' '];
            assert(b.drop_last() =~= a);
            lemma_scan_append_word(b, w);
            assert(scan_words(b) == (words_of(a), Seq::<char>::empty()));
            assert(words_of(a).push(w) =~= g);
        }
    }
}

/// Splitting the wrapped lines into words again gives back the words of the
/// text: each line's words are exactly its group, and the groups in order are
/// the text's words, none left out or repeated.
pub proof fn lemma_wrap_rewords(text: Seq<char>, size: u64, max_width: u64)
    ensures
        ({
            let gs = line_groups(words_of(text), char_capacity(size, max_width));
            &&& flatten_groups(gs) == words_of(text)
            &&& words_of(text).len() > 0 ==> wrapped(text, size, max_width).len() == gs.len()
            &&& forall|k: int|
                0 <= k < gs.len() && words_of(text).len() > 0 ==> words_of(
                    #[trigger] wrapped(text, size, max_width)[k],
                ) == gs[k]
        }),
{
    let ws = words_of(text);
    let cap = char_capacity(size, max_width);
    let gs = line_groups(ws, cap);
    lemma_wrap_keeps_words(text, size, max_width);
    lemma_words_are_words(text);
    assert forall|k: int|
        0 <= k < gs.len() && ws.len() > 0 implies words_of(
        #[trigger] wrapped(text, size, max_width)[k],
    ) == gs[k] by {
        assert forall|j: int| 0 <= j < gs[k].len() implies is_word(#[trigger] gs[k][j]) by {
            lemma_flatten_index(gs, k, j);
        }
        lemma_words_of_joined(gs[k]);
    }
}

proof fn lemma_flatten_index(gs: Seq<Seq<Seq<char>>>, k: int, j: int)
    requires
        0 <= k < gs.len(),
        0 <= j < gs[k].len(),
    ensures
        exists|i: int| 0 <= i < flatten_groups(gs).len() && flatten_groups(gs)[i] == gs[k][j],
    decreases gs.len(),
{
    let f = flatten_groups(gs);
    let p = flatten_groups(gs.drop_last());
    if k == gs.len() - 1 {
        assert(f[p.len() + j] == gs[k][j]);
    } else {
        lemma_flatten_index(gs.drop_last(), k, j);
        let i = choose|i: int| 0 <= i < p.len() && p[i] == gs.drop_last()[k][j];
        assert(f[i] == p[i]);
    }
}

} // verus!
