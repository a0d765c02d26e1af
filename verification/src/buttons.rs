//! The 88×31 button fetcher: which image URLs a gallery page lists, how two
//! galleries are merged, the order in which buttons are downloaded and the
//! name each download is given.
//!
//! Fetching the pages and the images is I/O and stays with the caller; this
//! module decides what is fetched.

use vstd::prelude::*;
use crate::shuffle::{is_permutation, shuffle_indices, shuffled_order};
use crate::text::{
    chars_eq, chars_of, ends_with, find_from, find_seq_from, has_prefix, has_suffix,
    lemma_find_from_bounds, slice_chars, starts_with, string_of, strip_repeated,
    strip_repeated_chars,
};

verus! {

broadcast use vstd::string::group_string_axioms;

/// The marker that precedes an image source in a gallery page.
pub open spec fn src_marker() -> Seq<char> {
    seq!['s', 'r', 'c', '=', '"']
}

/// The pieces of `s` between occurrences of the non-empty pattern `p`,
/// starting at `start` (as `str::split`).
pub open spec fn split_from(s: Seq<char>, p: Seq<char>, start: int) -> Seq<Seq<char>>
    decreases s.len() + 1 - start,
{
    if p.len() == 0 || start < 0 || start > s.len() {
        Seq::empty()
    } else {
        match find_from(s, p, start) {
            None => seq![s.subrange(start, s.len() as int)],
            Some(i) => {
                proof {
                    lemma_find_from_bounds(s, p, start);
                }
                seq![s.subrange(start, i)] + split_from(s, p, i + p.len())
            },
        }
    }
}

/// `str::split` on a non-empty pattern.
pub open spec fn split_on(s: Seq<char>, p: Seq<char>) -> Seq<Seq<char>> {
    split_from(s, p, 0)
}

/// The file extensions a gallery image may have.
pub open spec fn is_button_image(src: Seq<char>) -> bool {
    ||| has_suffix(src, ".gif"@)
    ||| has_suffix(src, ".png"@)
    ||| has_suffix(src, ".jpg"@)
}

/// An absolute source is kept; a relative one is resolved against `base`
/// after leading `./` and `/` are removed.
pub open spec fn resolve_src(src: Seq<char>, base: Seq<char>) -> Seq<char> {
    if has_prefix(src, "http"@) {
        src
    } else {
        base + strip_repeated(strip_repeated(src, "./"@), "/"@)
    }
}

/// The URL one piece of the page contributes, if any: the text up to the
/// closing quote, when it names an image.
pub open spec fn piece_url(piece: Seq<char>, base: Seq<char>) -> Option<Seq<char>> {
    match find_from(piece, seq!['"'], 0) {
        None => None,
        Some(end) => {
            let src = piece.subrange(0, end);
            if is_button_image(src) {
                Some(resolve_src(src, base))
            } else {
                None
            }
        },
    }
}

/// The URLs of the first `k` pieces, first occurrences only, in page order.
pub open spec fn urls_of_pieces(pieces: Seq<Seq<char>>, base: Seq<char>, k: nat) -> Seq<Seq<char>>
    decreases k,
{
    if k == 0 {
        Seq::empty()
    } else {
        let acc = urls_of_pieces(pieces, base, (k - 1) as nat);
        match piece_url(pieces[k - 1], base) {
            Some(u) => if acc.contains(u) {
                acc
            } else {
                acc.push(u)
            },
            None => acc,
        }
    }
}

/// The image URLs that a gallery page lists, in order, without repeats.
pub open spec fn page_image_urls(html: Seq<char>, base: Seq<char>) -> Seq<Seq<char>> {
    let pieces = split_on(html, src_marker());
    urls_of_pieces(pieces, base, pieces.len())
}

/// The views of a vector of character vectors.
pub open spec fn char_views(v: Seq<Vec<char>>) -> Seq<Seq<char>> {
    v.map_values(|c: Vec<char>| c@)
}

/// The views of a vector of strings.
pub open spec fn views(v: Seq<String>) -> Seq<Seq<char>> {
    v.map_values(|s: String| s@)
}

proof fn lemma_split_from_step(s: Seq<char>, p: Seq<char>, start: int, i: int)
    requires
        p.len() > 0,
        0 <= start <= s.len(),
        find_from(s, p, start) == Some(i),
    ensures
        split_from(s, p, start) == seq![s.subrange(start, i)] + split_from(s, p, i + p.len()),
        start <= i,
        i + p.len() <= s.len(),
{
    lemma_find_from_bounds(s, p, start);
}

/// The pieces of `html` between occurrences of `pat` (non-empty), as
/// `str::split` yields them.
pub fn split_chars(s: &Vec<char>, p: &Vec<char>) -> (r: Vec<Vec<char>>)
    requires
        p.len() > 0,
    ensures
        char_views(r@) == split_on(s@, p@),
{
    let mut out: Vec<Vec<char>> = Vec::new();
    let mut start: usize = 0;
    let ghost whole = split_on(s@, p@);
    loop
        invariant
            start <= s.len(),
            p.len() > 0,
            whole == split_on(s@, p@),
            char_views(out@) + split_from(s@, p@, start as int) == whole,
        decreases s.len() + 1 - start,
    {
        match find_seq_from(s.as_slice(), p.as_slice(), start) {
            None => {
                let piece = slice_chars(s.as_slice(), start, s.len());
                let ghost before = char_views(out@);
                out.push(piece);
                assert(char_views(out@) =~= before.push(piece@));
                assert(split_from(s@, p@, start as int) == seq![s@.subrange(start as int, s.len() as int)]);
                assert(before + split_from(s@, p@, start as int) =~= before.push(piece@));
                assert(char_views(out@) == whole);
                return out;
            },
            Some(i) => {
                proof {
                    lemma_split_from_step(s@, p@, start as int, i as int);
                }
                let piece = slice_chars(s.as_slice(), start, i);
                let ghost before = char_views(out@);
                out.push(piece);
                assert(char_views(out@) =~= before.push(piece@));
                assert(before.push(piece@) + split_from(s@, p@, i + p.len()) =~= before + (seq![piece@]
                    + split_from(s@, p@, i + p.len())));
                start = i + p.len();
            },
        }
    }
}

/// Whether `u` is among `list`.
fn contains_chars(list: &Vec<Vec<char>>, u: &Vec<char>) -> (r: bool)
    ensures
        r == char_views(list@).contains(u@),
{
    let ghost views_l = char_views(list@);
    let mut i: usize = 0;
    while i < list.len()
        invariant
            i <= list.len(),
            views_l == char_views(list@),
            forall|k: int| 0 <= k < i ==> views_l[k] != u@,
        decreases list.len() - i,
    {
        if chars_eq(list[i].as_slice(), u.as_slice()) {
            assert(views_l[i as int] == u@);
            return true;
        }
        i = i + 1;
    }
    false
}

/// The URL a piece of a page contributes.
fn piece_url_exec(piece: &Vec<char>, base: &Vec<char>) -> (r: Option<Vec<char>>)
    ensures
        match r {
            Some(u) => piece_url(piece@, base@) == Some(u@),
            None => piece_url(piece@, base@) is None,
        },
{
    let quote = vec!['"'];
    assert(quote@ =~= seq!['"']);
    let end = match find_seq_from(piece.as_slice(), quote.as_slice(), 0) {
        Some(e) => e,
        None => return None,
    };
    proof {
        lemma_find_from_bounds(piece@, quote@, 0);
    }
    let src = slice_chars(piece.as_slice(), 0, end);
    let gif = chars_of(".gif");
    let png = chars_of(".png");
    let jpg = chars_of(".jpg");
    if !ends_with(src.as_slice(), gif.as_slice()) && !ends_with(src.as_slice(), png.as_slice())
        && !ends_with(src.as_slice(), jpg.as_slice()) {
        return None;
    }
    let http = chars_of("http");
    if starts_with(src.as_slice(), http.as_slice()) {
        Some(src)
    } else {
        let dot_slash = chars_of("./");
        let slash = chars_of("/");
        let a = strip_repeated_chars(src.as_slice(), dot_slash.as_slice());
        let b = strip_repeated_chars(a.as_slice(), slash.as_slice());
        let mut url = slice_chars(base.as_slice(), 0, base.len());
        let mut k: usize = 0;
        while k < b.len()
            invariant
                k <= b.len(),
                url@ == base@ + b@.take(k as int),
            decreases b.len() - k,
        {
            url.push(b[k]);
            k = k + 1;
            assert(url@ =~= base@ + b@.take(k as int));
        }
        assert(b@.take(b.len() as int) =~= b@);
        Some(url)
    }
}

/// The image URLs listed by a gallery page (the `src="…"` attributes that
/// end in `.gif`, `.png` or `.jpg`), resolved against `base`, in page order
/// and without repeats.
pub fn extract_image_urls(html: &str, base: &str) -> (r: Vec<String>)
    ensures
        views(r@) == page_image_urls(html@, base@),
{
    let h = chars_of(html);
    let b = chars_of(base);
    let marker = chars_of("src=\"");
    proof {
        reveal_strlit("src=\"");
        assert(marker@ =~= src_marker());
    }
    let pieces = split_chars(&h, &marker);
    let ghost pv = char_views(pieces@);
    let mut found: Vec<Vec<char>> = Vec::new();
    let mut out: Vec<String> = Vec::new();
    let mut i: usize = 0;
    while i < pieces.len()
        invariant
            i <= pieces.len(),
            pv == char_views(pieces@),
            pv == split_on(h@, src_marker()),
            b@ == base@,
            h@ == html@,
            char_views(found@) == urls_of_pieces(pv, b@, i as nat),
            views(out@) == urls_of_pieces(pv, b@, i as nat),
        decreases pieces.len() - i,
    {
        assert(pv[i as int] == pieces@[i as int]@);
        match piece_url_exec(&pieces[i], &b) {
            Some(u) => {
                if !contains_chars(&found, &u) {
                    let ghost fb = char_views(found@);
                    let ghost ob = views(out@);
                    let s = string_of(u.as_slice());
                    found.push(u);
                    out.push(s);
                    assert(char_views(found@) =~= fb.push(u@));
                    assert(views(out@) =~= ob.push(u@));
                }
            },
            None => {},
        }
        i = i + 1;
    }
    out
}


/// `Vec::dedup`: runs of equal neighbours collapsed to their first element.
pub open spec fn dedup_adjacent(s: Seq<Seq<char>>) -> Seq<Seq<char>>
    decreases s.len(),
{
    if s.len() == 0 {
        s
    } else {
        let acc = dedup_adjacent(s.drop_last());
        if acc.len() > 0 && acc.last() == s.last() {
            acc
        } else {
            acc.push(s.last())
        }
    }
}

proof fn lemma_dedup_last(s: Seq<Seq<char>>)
    ensures
        s.len() > 0 ==> dedup_adjacent(s).len() > 0 && dedup_adjacent(s).last() == s.last(),
        s.len() == 0 ==> dedup_adjacent(s).len() == 0,
    decreases s.len(),
{
    if s.len() > 0 {
        lemma_dedup_last(s.drop_last());
    }
}

/// The URL list of both galleries: the first gallery's URLs followed by the
/// second's, with adjacent repeats collapsed.
pub fn merge_galleries(a: Vec<String>, b: Vec<String>) -> (r: Vec<String>)
    ensures
        views(r@) == dedup_adjacent(views(a@) + views(b@)),
{
    let mut all = a;
    let ghost va = views(all@);
    let mut bb = b;
    let ghost vb = views(bb@);
    let mut k: usize = 0;
    let n = bb.len();
    while k < n
        invariant
            n == bb.len(),
            k <= n,
            vb == views(bb@),
            views(all@) == va + vb.take(k as int),
        decreases n - k,
    {
        let s = bb[k].clone();
        let ghost before = views(all@);
        all.push(s);
        assert(views(all@) =~= before.push(vb[k as int]));
        k = k + 1;
        assert(va + vb.take(k as int) =~= (va + vb.take(k - 1)).push(vb[k - 1]));
    }
    assert(vb.take(n as int) =~= vb);
    let ghost total = views(all@);
    let mut out: Vec<String> = Vec::new();
    let mut i: usize = 0;
    while i < all.len()
        invariant
            i <= all.len(),
            total == views(all@),
            views(out@) == dedup_adjacent(total.take(i as int)),
        decreases all.len() - i,
    {
        let ghost prefix = total.take(i as int);
        assert(total.take(i + 1).drop_last() =~= prefix);
        proof {
            lemma_dedup_last(prefix);
        }
        let keep = if out.len() == 0 {
            true
        } else {
            let last = out.len() - 1;
            !string_eq(&out[last], &all[i])
        };
        if keep {
            let ghost before = views(out@);
            out.push(all[i].clone());
            assert(views(out@) =~= before.push(total[i as int]));
        }
        i = i + 1;
    }
    assert(total.take(all.len() as int) =~= total);
    out
}

/// Equality of two strings.
fn string_eq(a: &String, b: &String) -> (r: bool)
    ensures
        r == (a@ == b@),
{
    let x = chars_of(a.as_str());
    let y = chars_of(b.as_str());
    chars_eq(x.as_slice(), y.as_slice())
}

/// The downloads in the order they are made: the shuffled positions of the
/// URL list, the first `count` of them.
pub open spec fn download_positions(n: nat, seed: u64, count: nat) -> Seq<usize> {
    let order = shuffled_order(n, seed);
    if count < n {
        order.take(count as int)
    } else {
        order
    }
}

/// The URLs to download, in order: `count` of them (or all, if fewer),
/// picked by the seeded shuffle.
pub fn download_plan(urls: &Vec<String>, seed: u64, count: usize) -> (r: Vec<String>)
    ensures
        r@.len() == download_positions(urls@.len(), seed, count as nat).len(),
        forall|k: int| 0 <= k < r@.len() ==> #[trigger] r@[k]@ == urls@[download_positions(
            urls@.len(),
            seed,
            count as nat,
        )[k] as int]@,
{
    let order = shuffle_indices(urls.len(), seed);
    let ghost pos = download_positions(urls@.len(), seed, count as nat);
    let take = if count < order.len() {
        count
    } else {
        order.len()
    };
    assert(pos =~= order@.take(take as int));
    let mut out: Vec<String> = Vec::new();
    let mut k: usize = 0;
    while k < take
        invariant
            take <= order.len(),
            order.len() == urls.len(),
            is_permutation(order@, urls@.len()),
            pos == order@.take(take as int),
            k <= take,
            out@.len() == k,
            forall|m: int| 0 <= m < k ==> #[trigger] out@[m]@ == urls@[pos[m] as int]@,
        decreases take - k,
    {
        let idx = order[k];
        out.push(urls[idx].clone());
        k = k + 1;
    }
    out
}

/// Law: the download plan never downloads the same position of the URL
/// list twice, and takes `min(count, n)` positions, each within the list.
pub proof fn lemma_download_positions_distinct(n: nat, seed: u64, count: nat)
    requires
        n <= usize::MAX,
    ensures
        download_positions(n, seed, count).len() == if count < n {
            count
        } else {
            n
        },
        forall|k: int|
            0 <= k < download_positions(n, seed, count).len() ==> #[trigger] download_positions(
                n,
                seed,
                count,
            )[k] < n,
        forall|a: int, b: int|
            0 <= a < b < download_positions(n, seed, count).len() ==> download_positions(
                n,
                seed,
                count,
            )[a] != download_positions(n, seed, count)[b],
{
    crate::shuffle::lemma_shuffled_order_is_permutation(n, seed);
    let order = shuffled_order(n, seed);
    if count < n {
        assert forall|a: int, b: int|
            0 <= a < b < download_positions(n, seed, count).len() implies download_positions(
            n,
            seed,
            count,
        )[a] != download_positions(n, seed, count)[b] by {
            assert(download_positions(n, seed, count)[a] == order[a]);
            assert(download_positions(n, seed, count)[b] == order[b]);
        }
    }
}

/// Position of the last `/` in `s`, if any.
pub open spec fn last_slash(s: Seq<char>) -> Option<int>
    decreases s.len(),
{
    if s.len() == 0 {
        None
    } else if s.last() == '/' {
        Some(s.len() - 1)
    } else {
        last_slash(s.drop_last())
    }
}

/// The last `/`-separated segment of a URL (`split('/').last()`); the whole
/// URL when it has no `/`.
pub open spec fn last_segment(s: Seq<char>) -> Seq<char> {
    match last_slash(s) {
        Some(i) => s.subrange(i + 1, s.len() as int),
        None => s,
    }
}

/// The file name a downloaded button is given.
pub fn button_file_name(url: &str) -> (r: String)
    ensures
        r@ == last_segment(url@),
{
    let u = chars_of(url);
    let mut i: usize = u.len();
    assert(u@.take(i as int) =~= u@);
    while i > 0 && u[i - 1] != '/'
        invariant
            i <= u.len(),
            last_slash(u@.take(i as int)) == last_slash(u@),
        decreases i,
    {
        assert(u@.take(i as int).drop_last() =~= u@.take(i - 1));
        i = i - 1;
    }
    if i == 0 {
        assert(u@.take(0) =~= Seq::<char>::empty());
        string_of(u.as_slice())
    } else {
        assert(u@.take(i as int).last() == '/');
        let seg = slice_chars(u.as_slice(), i, u.len());
        string_of(seg.as_slice())
    }
}

proof fn lemma_urls_of_pieces_distinct(pieces: Seq<Seq<char>>, base: Seq<char>, k: nat)
    ensures
        forall|a: int, b: int|
            0 <= a < b < urls_of_pieces(pieces, base, k).len() ==> urls_of_pieces(pieces, base, k)[a]
                != urls_of_pieces(pieces, base, k)[b],
    decreases k,
{
    if k > 0 {
        lemma_urls_of_pieces_distinct(pieces, base, (k - 1) as nat);
        let acc = urls_of_pieces(pieces, base, (k - 1) as nat);
        match piece_url(pieces[k - 1], base) {
            Some(u) => {
                if !acc.contains(u) {
                    let r = acc.push(u);
                    assert forall|a: int, b: int| 0 <= a < b < r.len() implies r[a] != r[b] by {
                        if b == acc.len() {
                            assert(r[a] == acc[a]);
                            assert(r[b] == u);
                        }
                    }
                }
            },
            None => {},
        }
    }
}

/// Law: a gallery page yields each image URL at most once.
pub proof fn lemma_page_urls_distinct(html: Seq<char>, base: Seq<char>)
    ensures
        forall|a: int, b: int|
            0 <= a < b < page_image_urls(html, base).len() ==> page_image_urls(html, base)[a]
                != page_image_urls(html, base)[b],
{
    let pieces = split_on(html, src_marker());
    lemma_urls_of_pieces_distinct(pieces, base, pieces.len());
}

/// Law: collapsing adjacent repeats loses no URL and adds none.
pub proof fn lemma_dedup_keeps_urls(s: Seq<Seq<char>>, u: Seq<char>)
    ensures
        dedup_adjacent(s).contains(u) <==> s.contains(u),
    decreases s.len(),
{
    if s.len() > 0 {
        let d = s.drop_last();
        lemma_dedup_keeps_urls(d, u);
        lemma_dedup_last(d);
        let acc = dedup_adjacent(d);
        assert(s =~= d.push(s.last()));
        if s.contains(u) {
            let i = choose|i: int| 0 <= i < s.len() && s[i] == u;
            if i < d.len() {
                assert(d[i] == u);
            }
        }
        if acc.len() > 0 && acc.last() == s.last() {
            assert(acc[acc.len() - 1] == s.last());
        } else {
            let r = acc.push(s.last());
            assert(r[acc.len() as int] == s.last());
            if r.contains(u) {
                let i = choose|i: int| 0 <= i < r.len() && r[i] == u;
                if i < acc.len() {
                    assert(acc[i] == u);
                }
            }
            if acc.contains(u) {
                let i = choose|i: int| 0 <= i < acc.len() && acc[i] == u;
                assert(r[i] == u);
            }
        }
        if d.contains(u) {
            let i = choose|i: int| 0 <= i < d.len() && d[i] == u;
            assert(s[i] == u);
        }
    }
}

/// Law: merging two galleries keeps exactly the URLs that either lists.
pub proof fn lemma_merge_keeps_urls(a: Seq<Seq<char>>, b: Seq<Seq<char>>, u: Seq<char>)
    ensures
        dedup_adjacent(a + b).contains(u) <==> (a.contains(u) || b.contains(u)),
{
    lemma_dedup_keeps_urls(a + b, u);
    let ab = a + b;
    if ab.contains(u) {
        let i = choose|i: int| 0 <= i < ab.len() && ab[i] == u;
        if i < a.len() {
            assert(a[i] == u);
        } else {
            assert(b[i - a.len()] == u);
        }
    }
    if a.contains(u) {
        let i = choose|i: int| 0 <= i < a.len() && a[i] == u;
        assert(ab[i] == u);
    }
    if b.contains(u) {
        let i = choose|i: int| 0 <= i < b.len() && b[i] == u;
        assert(ab[a.len() + i] == u);
    }
}

} // verus!
