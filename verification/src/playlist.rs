//! `.pls` playlists: which `FileN=` lines name a track, how each target is
//! resolved against the playlist's folder, and the order of the tracks.
//!
//! Reading the file and asking whether a local track exists are I/O and stay
//! with the caller: `pls_candidates` reads the lines, the caller looks on
//! disk, `kept_tracks` applies the answers and `playlist_order` orders.
//!
//! Paths are Unix paths (the program runs on X11 desktops): a path is
//! absolute when it starts with `/`, and the contracts of the `std::path`
//! calls below state what those functions do on Unix.

use vstd::prelude::*;
use std::collections::BTreeMap;
use vstd::std_specs::iter::IteratorSpec;
use crate::buttons::split_on;
use crate::text::{
    ascii_lower, ascii_lower_chars, ascii_lower_seq, chars_of, find_from, find_seq_from, has_prefix,
    is_unicode_whitespace, lemma_find_from_bounds, occurs_at, slice_chars, starts_with, string_of,
    trim, trim_chars, trim_start, leading_ws, trailing_ws,
};

verus! {

broadcast use vstd::string::group_string_axioms;

/// The value of a string of ASCII decimal digits.
pub open spec fn digits_value(s: Seq<char>) -> int
    decreases s.len(),
{
    if s.len() == 0 {
        0
    } else {
        digits_value(s.drop_last()) * 10 + ((s.last() as u32) - ('0' as u32))
    }
}

pub open spec fn is_digit(c: char) -> bool {
    '0' <= c && c <= '9'
}

/// `u32::from_str`: an optional `+`, then one or more ASCII digits whose
/// value fits in a `u32`.
pub open spec fn parse_u32_spec(s: Seq<char>) -> Option<u32> {
    let d = digits_part(s);
    if d.len() > 0 && (forall|k: int| 0 <= k < d.len() ==> is_digit(#[trigger] d[k]))
        && digits_value(d) <= u32::MAX {
        Some(digits_value(d) as u32)
    } else {
        None
    }
}

proof fn lemma_digits_value_nonneg(s: Seq<char>)
    requires
        forall|k: int| 0 <= k < s.len() ==> is_digit(#[trigger] s[k]),
    ensures
        digits_value(s) >= 0,
    decreases s.len(),
{
    if s.len() > 0 {
        lemma_digits_value_nonneg(s.drop_last());
    }
}

proof fn lemma_digits_value_monotone(s: Seq<char>, k: int)
    requires
        0 <= k <= s.len(),
        forall|m: int| 0 <= m < s.len() ==> is_digit(#[trigger] s[m]),
    ensures
        digits_value(s.take(k)) <= digits_value(s),
    decreases s.len() - k,
{
    if k < s.len() {
        lemma_digits_value_monotone(s, k + 1);
        assert(s.take(k + 1).drop_last() =~= s.take(k));
        lemma_digits_value_nonneg(s.take(k));
    } else {
        assert(s.take(k) =~= s);
    }
}

/// The digits part of a number: the text after an optional leading `+`.
pub open spec fn digits_part(s: Seq<char>) -> Seq<char> {
    if s.len() > 0 && s[0] == '+' {
        s.drop_first()
    } else {
        s
    }
}

proof fn lemma_parse_rejects_non_digit(s: Seq<char>, k: int)
    requires
        0 <= k < digits_part(s).len(),
        !is_digit(digits_part(s)[k]),
    ensures
        parse_u32_spec(s) is None,
{
}

proof fn lemma_parse_rejects_large(s: Seq<char>, k: int)
    requires
        0 <= k <= digits_part(s).len(),
        forall|m: int| 0 <= m < k ==> is_digit(#[trigger] digits_part(s)[m]),
        digits_value(digits_part(s).take(k)) > u32::MAX,
    ensures
        parse_u32_spec(s) is None,
{
    let d = digits_part(s);
    if forall|m: int| 0 <= m < d.len() ==> is_digit(#[trigger] d[m]) {
        lemma_digits_value_monotone(d, k);
    }
}

/// `str::parse::<u32>`.
pub fn parse_u32(s: &[char]) -> (r: Option<u32>)
    ensures
        r == parse_u32_spec(s@),
{
    let start: usize = if s.len() > 0 && s[0] == '+' {
        1
    } else {
        0
    };
    let ghost d = s@.subrange(start as int, s.len() as int);
    assert(d =~= (if s@.len() > 0 && s@[0] == '+' {
        s@.drop_first()
    } else {
        s@
    }));
    if start >= s.len() {
        return None;
    }
    let mut value: u32 = 0;
    let mut i: usize = start;
    while i < s.len()
        invariant
            start <= i <= s.len(),
            d == s@.subrange(start as int, s.len() as int),
            d == digits_part(s@),
            d.len() > 0,
            forall|k: int| 0 <= k < i - start ==> is_digit(#[trigger] d[k]),
            value == digits_value(d.take(i - start)),
        decreases s.len() - i,
    {
        let c = s[i];
        if c < '0' || c > '9' {
            proof {
                lemma_parse_rejects_non_digit(s@, i - start);
            }
            return None;
        }
        let digit: u32 = (c as u32) - ('0' as u32);
        assert(d.take(i - start + 1).drop_last() =~= d.take(i - start));
        if value > (u32::MAX - digit) / 10 {
            proof {
                assert(digits_value(d.take(i - start + 1)) == value * 10 + digit);
                assert(value * 10 + digit > u32::MAX) by (nonlinear_arith)
                    requires
                        value > (u32::MAX - digit) / 10,
                        digit <= 9,
                ;
                lemma_parse_rejects_large(s@, i - start + 1);
            }
            return None;
        }
        assert(value * 10 + digit <= u32::MAX) by (nonlinear_arith)
            requires
                value <= (u32::MAX - digit) / 10,
                digit <= 9,
        ;
        value = value * 10 + digit;
        i = i + 1;
    }
    assert(d.take(d.len() as int) =~= d);
    Some(value)
}

/// What a `FileN=` line contributes: its number, its target and whether the
/// target counts as a network URL.
pub struct PlsCandidate {
    pub index: u32,
    pub entry: String,
    pub is_url: bool,
}

/// The view of a candidate.
pub open spec fn candidate_view(c: PlsCandidate) -> (u32, Seq<char>, bool) {
    (c.index, c.entry@, c.is_url)
}

/// The name that `Path::new(dir).join(rel)` gives, as a string.
pub uninterp spec fn joined_path(dir: Seq<char>, rel: Seq<char>) -> Seq<char>;

/// `Path::join` of two relative-or-absolute path strings.
///
/// Trusted: calls `std::path::Path::join` and converts the result with
/// `to_string_lossy` (lossless on text that is already UTF-8).  As the
/// documentation of `Path::join` and `PathBuf::push` says (on Unix): an
/// absolute `rel` replaces `dir`; a relative one extends it, after a `/`
/// when `dir` does not end in one (`/tmp` and `file.bk` give
/// `/tmp/file.bk`).  The other cases (an empty `dir`, or one ending in
/// `/`) are only named.
#[verifier::external_body]
fn path_join(dir: &str, rel: &str) -> (r: String)
    ensures
        r@ == joined_path(dir@, rel@),
        is_absolute_path(rel@) ==> r@ == rel@,
        !is_absolute_path(rel@) && dir@.len() > 0 && dir@.last() != '/' ==> r@ == dir@ + seq!['/']
            + rel@,
{
    std::path::Path::new(dir).join(rel).to_string_lossy().into_owned()
}

/// A Unix path is absolute when it starts with the root `/`.
pub open spec fn is_absolute_path(p: Seq<char>) -> bool {
    p.len() > 0 && p[0] == '/'
}

/// What `Path::is_absolute` says of a Unix path: that it starts at the root.
pub fn path_is_absolute(p: &[char]) -> (r: bool)
    ensures
        r == is_absolute_path(p@),
{
    p.len() > 0 && p[0] == '/'
}

/// How a target names a track: network URLs and absolute paths as written,
/// other paths joined to the playlist's folder (with a `/` between them
/// when the folder does not end in one; the remaining cases are what
/// `Path::join` gives).
pub open spec fn resolve_target(raw: Seq<char>, dir: Seq<char>) -> Seq<char> {
    let lp = ascii_lower_seq(raw);
    if has_prefix(lp, "http://"@) || has_prefix(lp, "https://"@) || has_prefix(lp, "rtsp://"@) {
        raw
    } else if is_absolute_path(raw) {
        raw
    } else if dir.len() > 0 && dir.last() != '/' {
        dir + seq!['/'] + raw
    } else {
        joined_path(dir, raw)
    }
}

/// A playlist target that names a network stream (it starts, in any case,
/// with `http://`, `https://` or `rtsp://`) or an absolute path (it starts
/// with `/`) is kept exactly as written, never joined to the playlist's
/// folder; any other target is placed in that folder, after a `/` where the
/// folder does not end in one.
pub proof fn lemma_resolve_keeps_urls(raw: Seq<char>, dir: Seq<char>)
    ensures
        has_prefix(ascii_lower_seq(raw), "http://"@) ==> resolve_target(raw, dir) == raw,
        has_prefix(ascii_lower_seq(raw), "https://"@) ==> resolve_target(raw, dir) == raw,
        has_prefix(ascii_lower_seq(raw), "rtsp://"@) ==> resolve_target(raw, dir) == raw,
        raw.len() > 0 && raw[0] == '/' ==> resolve_target(raw, dir) == raw,
        !has_prefix(ascii_lower_seq(raw), "http://"@) && !has_prefix(ascii_lower_seq(raw), "https://"@)
            && !has_prefix(ascii_lower_seq(raw), "rtsp://"@) && !(raw.len() > 0 && raw[0] == '/')
            && dir.len() > 0 && dir.last() != '/' ==> resolve_target(raw, dir) == dir + seq!['/'] + raw,
{
}

/// What one line of a playlist contributes, if anything: lines of the form
/// `FileN=target` (case-insensitive `file`, surrounding blanks ignored)
/// with `N` a `u32`.
pub open spec fn pls_line(line: Seq<char>, dir: Seq<char>) -> Option<(u32, Seq<char>, bool)> {
    let t = trim(line);
    if !has_prefix(ascii_lower_seq(t), "file"@) {
        None
    } else {
        let rest = t.subrange(4, t.len() as int);
        match find_from(rest, seq!['='], 0) {
            None => None,
            Some(eq) => match parse_u32_spec(trim(rest.subrange(0, eq))) {
                None => None,
                Some(idx) => {
                    let raw = trim(rest.subrange(eq + 1, rest.len() as int));
                    let lp = ascii_lower_seq(raw);
                    let is_url = has_prefix(lp, "http"@) || has_prefix(lp, "rtsp"@);
                    Some((idx, resolve_target(raw, dir), is_url))
                },
            },
        }
    }
}

/// A string that neither starts nor ends with whitespace is its own trim.
proof fn lemma_trim_unchanged(s: Seq<char>)
    requires
        s.len() > 0,
        !is_unicode_whitespace(s[0]),
        !is_unicode_whitespace(s.last()),
    ensures
        trim(s) == s,
{
    assert(leading_ws(s) == 0);
    assert(trim_start(s) =~= s);
    assert(trailing_ws(s) == 0);
    assert(trim(s) =~= s);
}

/// A `FileN=` line whose target is a network stream (`http://`, `https://`
/// or `rtsp://`, in any case) gives that target exactly as written, marked
/// as a URL, whatever folder the playlist is in: the stream is never taken
/// for a file in that folder.
pub proof fn lemma_stream_line_kept_verbatim(
    key: Seq<char>,
    target: Seq<char>,
    dir: Seq<char>,
    idx: u32,
)
    requires
        !key.contains('='),
        parse_u32_spec(trim(key)) == Some(idx),
        has_prefix(ascii_lower_seq(target), "http://"@) || has_prefix(ascii_lower_seq(target), "https://"@)
            || has_prefix(ascii_lower_seq(target), "rtsp://"@),
        target.len() > 0,
        !is_unicode_whitespace(target.last()),
    ensures
        pls_line("File"@ + key + "="@ + target, dir) == Some((idx, target, true)),
{
    reveal_strlit("File");
    reveal_strlit("file");
    reveal_strlit("=");
    reveal_strlit("http://");
    reveal_strlit("https://");
    reveal_strlit("rtsp://");
    reveal_strlit("http");
    reveal_strlit("rtsp");
    let line = "File"@ + key + "="@ + target;
    let lt = ascii_lower_seq(target);
    assert(target.len() >= 7);
    assert(lt[0] == ascii_lower(target[0]));
    assert(lt.subrange(0, 4) =~= "http"@ || lt.subrange(0, 4) =~= "rtsp"@) by {
        if has_prefix(lt, "http://"@) {
            assert(lt.subrange(0, 4) =~= "http://"@.subrange(0, 4));
        } else if has_prefix(lt, "https://"@) {
            assert(lt.subrange(0, 4) =~= "https://"@.subrange(0, 4));
        } else {
            assert(lt.subrange(0, 4) =~= "rtsp://"@.subrange(0, 4));
        }
    }
    assert(!is_unicode_whitespace(target[0])) by {
        assert(lt.subrange(0, 4)[0] == lt[0]);
        assert("http"@[0] == 'h' && "rtsp"@[0] == 'r');
        assert(lt[0] == 'h' || lt[0] == 'r');
    }
    lemma_trim_unchanged(target);
    assert(line[0] == 'F');
    assert(line.last() == target.last());
    lemma_trim_unchanged(line);
    let t = trim(line);
    assert(ascii_lower_seq(t).subrange(0, 4) =~= "file"@);
    let rest = t.subrange(4, t.len() as int);
    assert(rest =~= key + "="@ + target);
    let e = seq!['='];
    let kl = key.len() as int;
    assert(occurs_at(rest, e, kl)) by {
        assert(rest.subrange(kl, kl + 1) =~= e);
    }
    lemma_find_from_bounds(rest, e, 0);
    assert(find_from(rest, e, 0) == Some(kl)) by {
        match find_from(rest, e, 0) {
            Some(k) => {
                if k < kl {
                    assert(rest.subrange(k, k + 1) == e);
                    assert(rest.subrange(k, k + 1)[0] == rest[k]);
                    assert(rest[k] == key[k]);
                    assert(key[k] == '=');
                    assert(key.contains('='));
                }
            },
            None => {},
        }
    }
    assert(rest.subrange(0, kl) =~= key);
    assert(rest.subrange(kl + 1, rest.len() as int) =~= target);
}

/// The contributions of the first `k` lines, in order.
pub open spec fn pls_lines(lines: Seq<Seq<char>>, dir: Seq<char>, k: nat) -> Seq<(u32, Seq<char>, bool)>
    decreases k,
{
    if k == 0 {
        Seq::empty()
    } else {
        let acc = pls_lines(lines, dir, (k - 1) as nat);
        match pls_line(lines[k - 1], dir) {
            Some(c) => acc.push(c),
            None => acc,
        }
    }
}

/// The candidate tracks of a playlist, in file order.  Lines are the pieces
/// between newlines; a trailing carriage return is blank and trimmed away.
pub open spec fn pls_candidates_spec(content: Seq<char>, dir: Seq<char>) -> Seq<(u32, Seq<char>, bool)> {
    let lines = split_on(content, seq!['\n']);
    pls_lines(lines, dir, lines.len())
}

/// One playlist line.
fn pls_line_exec(line: &Vec<char>, dir: &str) -> (r: Option<PlsCandidate>)
    ensures
        match r {
            Some(c) => pls_line(line@, dir@) == Some(candidate_view(c)),
            None => pls_line(line@, dir@) is None,
        },
{
    let t = trim_chars(line.as_slice());
    let lower = ascii_lower_chars(t.as_slice());
    let file = chars_of("file");
    proof {
        reveal_strlit("file");
    }
    if !starts_with(lower.as_slice(), file.as_slice()) {
        return None;
    }
    let rest = slice_chars(t.as_slice(), 4, t.len());
    let eqs = vec!['='];
    assert(eqs@ =~= seq!['=']);
    let eq = match find_seq_from(rest.as_slice(), eqs.as_slice(), 0) {
        Some(e) => e,
        None => return None,
    };
    proof {
        lemma_find_from_bounds(rest@, eqs@, 0);
    }
    let key = slice_chars(rest.as_slice(), 0, eq);
    let key_t = trim_chars(key.as_slice());
    let idx = match parse_u32(key_t.as_slice()) {
        Some(n) => n,
        None => return None,
    };
    let value = slice_chars(rest.as_slice(), eq + 1, rest.len());
    let raw = trim_chars(value.as_slice());
    let lp = ascii_lower_chars(raw.as_slice());
    let http_s = chars_of("http://");
    let https_s = chars_of("https://");
    let rtsp_s = chars_of("rtsp://");
    let http = chars_of("http");
    let rtsp = chars_of("rtsp");
    let raw_str = string_of(raw.as_slice());
    let entry = if starts_with(lp.as_slice(), http_s.as_slice()) || starts_with(
        lp.as_slice(),
        https_s.as_slice(),
    ) || starts_with(lp.as_slice(), rtsp_s.as_slice()) {
        raw_str
    } else if path_is_absolute(raw.as_slice()) {
        raw_str
    } else {
        path_join(dir, raw_str.as_str())
    };
    let is_url = starts_with(lp.as_slice(), http.as_slice()) || starts_with(
        lp.as_slice(),
        rtsp.as_slice(),
    );
    Some(PlsCandidate { index: idx, entry, is_url })
}

/// The candidate tracks a playlist names, in file order: for each `FileN=`
/// line its number `N`, its resolved target and whether it is a network URL
/// (see `kept_tracks` for which of them stay).
pub fn pls_candidates(content: &str, dir: &str) -> (r: Vec<PlsCandidate>)
    ensures
        r@.map_values(|c: PlsCandidate| candidate_view(c)) == pls_candidates_spec(content@, dir@),
{
    let text = chars_of(content);
    let nl = vec!['\n'];
    assert(nl@ =~= seq!['\n']);
    let lines = crate::buttons::split_chars(&text, &nl);
    let ghost lv = crate::buttons::char_views(lines@);
    let mut out: Vec<PlsCandidate> = Vec::new();
    let mut i: usize = 0;
    while i < lines.len()
        invariant
            i <= lines.len(),
            lv == crate::buttons::char_views(lines@),
            lv == split_on(content@, seq!['\n']),
            out@.map_values(|c: PlsCandidate| candidate_view(c)) == pls_lines(lv, dir@, i as nat),
        decreases lines.len() - i,
    {
        assert(lv[i as int] == lines@[i as int]@);
        match pls_line_exec(&lines[i], dir) {
            Some(c) => {
                let ghost before = out@.map_values(|c: PlsCandidate| candidate_view(c));
                let ghost cv = candidate_view(c);
                out.push(c);
                assert(out@.map_values(|c: PlsCandidate| candidate_view(c)) =~= before.push(cv));
            },
            None => {},
        }
        i = i + 1;
    }
    out
}


/// The candidates that stay in the playlist: network URLs always, local
/// targets only when `on_disk` says the file exists.
pub open spec fn kept_entries(cands: Seq<(u32, Seq<char>, bool)>, on_disk: Seq<bool>) -> Seq<(u32, Seq<char>)>
    decreases cands.len(),
{
    if cands.len() == 0 {
        Seq::empty()
    } else {
        let acc = kept_entries(cands.drop_last(), on_disk);
        let c = cands.last();
        if c.2 || on_disk[cands.len() - 1] {
            acc.push((c.0, c.1))
        } else {
            acc
        }
    }
}

/// Keeps the candidates that name a network URL or, by `on_disk` (one flag
/// per candidate), an existing file, as (number, target) entries in order.
pub fn kept_tracks(cands: Vec<PlsCandidate>, on_disk: &Vec<bool>) -> (r: Vec<(u32, String)>)
    requires
        on_disk@.len() == cands@.len(),
    ensures
        entry_views(r@) == kept_entries(cands@.map_values(|c: PlsCandidate| candidate_view(c)), on_disk@),
{
    let ghost cv = cands@.map_values(|c: PlsCandidate| candidate_view(c));
    let mut out: Vec<(u32, String)> = Vec::new();
    let mut i: usize = 0;
    let n = cands.len();
    while i < n
        invariant
            i <= n,
            n == cands@.len(),
            on_disk@.len() == n,
            cv == cands@.map_values(|c: PlsCandidate| candidate_view(c)),
            entry_views(out@) == kept_entries(cv.take(i as int), on_disk@),
        decreases n - i,
    {
        let c = &cands[i];
        assert(cv.take(i + 1).drop_last() =~= cv.take(i as int));
        assert(cv.take(i + 1).last() == candidate_view(*c));
        if c.is_url || on_disk[i] {
            let ghost before = entry_views(out@);
            let e = (c.index, c.entry.clone());
            out.push(e);
            assert(entry_views(out@) =~= before.push((c.index, c.entry@)));
        }
        i = i + 1;
    }
    assert(cv.take(n as int) =~= cv);
    out
}

/// Law: a network URL named by a playlist line is always kept, whatever
/// the disk holds, and so is a local target that is on disk; every kept
/// entry comes from such a line.
pub proof fn lemma_kept_entries_members(cands: Seq<(u32, Seq<char>, bool)>, on_disk: Seq<bool>)
    requires
        on_disk.len() == cands.len(),
    ensures
        forall|k: int|
            0 <= k < cands.len() && (cands[k].2 || on_disk[k]) ==> kept_entries(cands, on_disk).contains(
                (#[trigger] cands[k].0, cands[k].1),
            ),
        forall|e: (u32, Seq<char>)|
            #[trigger] kept_entries(cands, on_disk).contains(e) ==> exists|k: int|
                #![trigger cands[k]]
                0 <= k < cands.len() && (cands[k].2 || on_disk[k]) && e == (cands[k].0, cands[k].1),
{
    assert forall|k: int|
        0 <= k < cands.len() && (cands[k].2 || on_disk[k]) implies kept_entries(cands, on_disk).contains(
            (#[trigger] cands[k].0, cands[k].1),
        ) by {
        lemma_kept_has(cands, on_disk, k);
    }
    assert forall|e: (u32, Seq<char>)| #[trigger] kept_entries(cands, on_disk).contains(e) implies exists|k: int|
        #![trigger cands[k]]
        0 <= k < cands.len() && (cands[k].2 || on_disk[k]) && e == (cands[k].0, cands[k].1) by {
        let k = lemma_kept_from(cands, on_disk, e);
        assert(e == (cands[k].0, cands[k].1));
    }
}

proof fn lemma_kept_has(cands: Seq<(u32, Seq<char>, bool)>, on_disk: Seq<bool>, k: int)
    requires
        cands.len() <= on_disk.len(),
        0 <= k < cands.len(),
        cands[k].2 || on_disk[k],
    ensures
        kept_entries(cands, on_disk).contains((cands[k].0, cands[k].1)),
    decreases cands.len(),
{
    let d = cands.drop_last();
    let acc = kept_entries(d, on_disk);
    let e = (cands[k].0, cands[k].1);
    if k == cands.len() - 1 {
        assert(kept_entries(cands, on_disk) == acc.push(e));
        assert(acc.push(e)[acc.len() as int] == e);
    } else {
        lemma_kept_has(d, on_disk, k);
        assert(d[k] == cands[k]);
        let i = choose|i: int| 0 <= i < acc.len() && acc[i] == e;
        if cands.last().2 || on_disk[cands.len() - 1] {
            assert(acc.push((cands.last().0, cands.last().1))[i] == e);
        }
    }
}

proof fn lemma_kept_from(cands: Seq<(u32, Seq<char>, bool)>, on_disk: Seq<bool>, e: (u32, Seq<char>)) -> (k: int)
    requires
        cands.len() <= on_disk.len(),
        kept_entries(cands, on_disk).contains(e),
    ensures
        0 <= k < cands.len(),
        cands[k].2 || on_disk[k],
        e.0 == cands[k].0,
        e.1 == cands[k].1,
    decreases cands.len(),
{
    let d = cands.drop_last();
    let acc = kept_entries(d, on_disk);
    let n = cands.len() - 1;
    let last = cands.last();
    let r = kept_entries(cands, on_disk);
    let i = choose|i: int| 0 <= i < r.len() && r[i] == e;
    if (last.2 || on_disk[n]) && i == acc.len() {
        assert(r == acc.push((last.0, last.1)));
        n
    } else {
        assert(acc[i] == e);
        let k = lemma_kept_from(d, on_disk, e);
        assert(cands[k] == d[k]);
        k
    }
}

/// The target last given for `key` among `entries`, if any.
pub open spec fn last_target(entries: Seq<(u32, Seq<char>)>, key: u32) -> Option<Seq<char>>
    decreases entries.len(),
{
    if entries.len() == 0 {
        None
    } else if entries.last().0 == key {
        Some(entries.last().1)
    } else {
        last_target(entries.drop_last(), key)
    }
}

/// The view of a kept playlist entry.
pub open spec fn entry_views(v: Seq<(u32, String)>) -> Seq<(u32, Seq<char>)> {
    v.map_values(|e: (u32, String)| (e.0, e.1@))
}

/// The keys of `m` strictly increase, each is the key of a last target of
/// `entries`, with that target, and every key of `entries` occurs.
pub open spec fn is_track_table(m: Seq<(u32, Seq<char>)>, entries: Seq<(u32, Seq<char>)>) -> bool {
    &&& forall|a: int, b: int| 0 <= a < b < m.len() ==> m[a].0 < m[b].0
    &&& forall|k: int| 0 <= k < m.len() ==> last_target(entries, #[trigger] m[k].0) == Some(m[k].1)
    &&& forall|key: u32| #[trigger] last_target(entries, key) is Some ==> exists|k: int|
        0 <= k < m.len() && m[k].0 == key
}

proof fn lemma_last_target_push(entries: Seq<(u32, Seq<char>)>, e: (u32, Seq<char>), key: u32)
    ensures
        last_target(entries.push(e), key) == if e.0 == key {
            Some(e.1)
        } else {
            last_target(entries, key)
        },
{
    assert(entries.push(e).drop_last() =~= entries);
}

/// `m` maps each number given among `entries` to the target last given for
/// it, and nothing else.
pub open spec fn is_last_targets(m: Map<u32, String>, entries: Seq<(u32, Seq<char>)>) -> bool {
    &&& forall|key: u32| #[trigger] m.contains_key(key) <==> last_target(entries, key) is Some
    &&& forall|key: u32| #[trigger] m.contains_key(key) ==> last_target(entries, key) == Some(m[key]@)
}

/// The comparison of `u32` keeps vstd's laws, which a `BTreeMap` keyed by
/// `u32` needs.
pub open spec fn u32_key_laws() -> bool {
    &&& vstd::laws_cmp::obeys_cmp::<u32>()
    &&& vstd::std_specs::btree::key_obeys_cmp_spec::<u32>()
}

/// `u32` keys order a `BTreeMap` as the integers do.
proof fn lemma_u32_keys_ordered()
    ensures
        u32_key_laws(),
        forall|s: Seq<u32>|
            #[trigger] vstd::std_specs::btree::increasing_seq(s) ==> forall|a: int, b: int|
                0 <= a < b < s.len() ==> s[a] < s[b],
{
    broadcast use vstd::laws_cmp::group_laws_cmp;
    broadcast use vstd::std_specs::btree::group_btree_axioms;

    assert forall|s: Seq<u32>| #[trigger] vstd::std_specs::btree::increasing_seq(s) implies forall|
        a: int,
        b: int,
    | 0 <= a < b < s.len() ==> s[a] < s[b] by {
        assert forall|a: int, b: int| 0 <= a < b < s.len() implies s[a] < s[b] by {
            assert(vstd::std_specs::cmp::OrdSpec::cmp_spec(&s[a], &s[b]) is Less);
        }
    }
}

/// The tracks of a playlist in order of their numbers, collected in a
/// `BTreeMap`: when a number is given twice, the later target wins.
pub fn playlist_order(entries: &Vec<(u32, String)>) -> (r: Vec<String>)
    ensures
        exists|m: Seq<(u32, Seq<char>)>|
            is_track_table(m, entry_views(entries@)) && m.len() == r@.len() && forall|k: int|
                0 <= k < r@.len() ==> #[trigger] r@[k]@ == m[k].1,
{
    proof {
        lemma_u32_keys_ordered();
    }
    let ghost ev = entry_views(entries@);
    let mut map: BTreeMap<u32, String> = BTreeMap::new();
    let mut i: usize = 0;
    while i < entries.len()
        invariant
            i <= entries.len(),
            ev == entry_views(entries@),
            u32_key_laws(),
            is_last_targets(map@, ev.take(i as int)),
        decreases entries.len() - i,
    {
        let key = entries[i].0;
        let val = entries[i].1.clone();
        let ghost pre = ev.take(i as int);
        assert(ev.take(i + 1) =~= pre.push((key, val@)));
        map.insert(key, val);
        proof {
            assert forall|key2: u32| true implies last_target(ev.take(i + 1), key2) == if key == key2 {
                Some(val@)
            } else {
                last_target(pre, key2)
            } by {
                lemma_last_target_push(pre, (key, val@), key2);
            }
        }
        i = i + 1;
    }
    assert(ev.take(entries.len() as int) =~= ev);
    let ghost mv = map@;
    let vals = map.values();
    let ghost full = vals.remaining();
    let ghost keys = choose|key_seq: Seq<u32>|
        {
            &&& vstd::std_specs::btree::increasing_seq(key_seq)
            &&& key_seq.to_set() == mv.dom()
            &&& key_seq.no_duplicates()
            &&& full == key_seq.map(|j: int, k: u32| &mv[k])
        };
    let mut out: Vec<String> = Vec::new();
    for v in it: vals
        invariant
            it.seq() == full,
            out@.len() == it.index(),
            forall|j: int| 0 <= j < it.index() ==> #[trigger] out@[j]@ == full[j]@,
    {
        out.push(v.clone());
    }
    proof {
        let m = keys.map(|j: int, k: u32| (k, mv[k]@));
        assert forall|k: int| 0 <= k < m.len() implies last_target(ev, #[trigger] m[k].0) == Some(m[k].1) by {
            assert(keys.to_set().contains(keys[k]));
        }
        assert forall|key2: u32| #[trigger] last_target(ev, key2) is Some implies exists|k: int|
            0 <= k < m.len() && m[k].0 == key2 by {
            assert(mv.dom().contains(key2));
            assert(keys.to_set().contains(key2));
            let k = choose|k: int| 0 <= k < keys.len() && keys[k] == key2;
            assert(m[k].0 == key2);
        }
        assert(is_track_table(m, ev));
        assert forall|k: int| 0 <= k < out@.len() implies #[trigger] out@[k]@ == m[k].1 by {
            assert(out@[k]@ == full[k]@);
        }
    }
    out
}

/// What `Path::new(p).parent()` gives, as text, if anything.
pub uninterp spec fn path_parent(p: Seq<char>) -> Option<Seq<char>>;

/// The folder part of a path.
///
/// Trusted: `std::path::Path::parent`, converted with `to_string_lossy`;
/// the result is named.
#[verifier::external_body]
fn parent_of(p: &str) -> (r: Option<String>)
    ensures
        match r {
            Some(d) => path_parent(p@) == Some(d@),
            None => path_parent(p@) is None,
        },
{
    std::path::Path::new(p).parent().map(|d| d.to_string_lossy().into_owned())
}

/// The folder relative tracks of a playlist are resolved against: the
/// playlist's parent folder, or the empty path when it has none.
pub fn playlist_dir(pls_path: &str) -> (r: String)
    ensures
        r@ == match path_parent(pls_path@) {
            Some(d) => d,
            None => Seq::<char>::empty(),
        },
{
    match parent_of(pls_path) {
        Some(d) => d,
        None => String::new(),
    }
}

} // verus!
