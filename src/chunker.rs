//! Splitting a document into bounded-size chunks: paragraphs first, separated
//! by a blank line (`"\n\n"`), then fixed-size character windows of any
//! paragraph longer than the target size. Pieces made only of whitespace are
//! dropped. The result depends on the text and the size alone.
use vstd::prelude::*;
use vstd::slice::slice_subrange;
use crate::text::{chars_of, string_from_chars};

verus! {

/// Unicode White_Space, the characters that `str::trim` removes: tab, line
/// feed, vertical tab, form feed, carriage return, space, next line, no-break
/// space, ogham space mark, the spaces U+2000 to U+200A, line and paragraph
/// separators, narrow no-break space, medium mathematical space and
/// ideographic space.
pub open spec fn is_space(c: char) -> bool {
    let u = c as u32;
    (0x09 <= u <= 0x0d) || u == 0x20 || u == 0x85 || u == 0xa0 || u == 0x1680 || (0x2000 <= u <= 0x200a)
        || u == 0x2028 || u == 0x2029 || u == 0x202f || u == 0x205f || u == 0x3000
}

/// A piece made only of whitespace (the empty piece included).
pub open spec fn is_blank(p: Seq<char>) -> bool {
    forall|i: int| 0 <= i < p.len() ==> is_space(#[trigger] p[i])
}

/// The piece as a chunk, unless it is blank.
pub open spec fn kept(p: Seq<char>) -> Seq<Seq<char>> {
    if is_blank(p) {
        seq![]
    } else {
        seq![p]
    }
}

/// The non-blank windows of `n` characters of a paragraph, the last one possibly
/// shorter; a paragraph of at most `n` characters (or any paragraph, for
/// `n == 0`) is one window.
pub open spec fn windows(p: Seq<char>, n: nat) -> Seq<Seq<char>>
    decreases p.len(),
{
    if n == 0 || p.len() <= n {
        kept(p)
    } else {
        kept(p.take(n as int)) + windows(p.skip(n as int), n)
    }
}

/// Whitespace within a line: White_Space other than a line feed.
pub open spec fn is_inline_space(c: char) -> bool {
    is_space(c) && c != '\n'
}

/// The length of the line ending at position `b`: 1 for `"\n"`, 2 for
/// `"\r\n"`, 0 where no line ends.
pub open spec fn line_end(s: Seq<char>, b: int) -> int {
    if 0 <= b < s.len() && s[b] == '\n' {
        1
    } else if 0 <= b && b + 1 < s.len() && s[b] == '\r' && s[b + 1] == '\n' {
        2
    } else {
        0
    }
}

/// The first position from `i` on that does not hold inline whitespace.
pub open spec fn skip_inline(s: Seq<char>, i: int) -> int
    decreases s.len() - i,
{
    if 0 <= i < s.len() && is_inline_space(s[i]) {
        skip_inline(s, i + 1)
    } else {
        i
    }
}

/// A paragraph break at position `b`: a line ending followed by a blank line,
/// that is only inline whitespace up to a line feed.
pub open spec fn is_break(s: Seq<char>, b: int) -> bool {
    &&& line_end(s, b) > 0
    &&& skip_inline(s, b + line_end(s, b)) < s.len()
    &&& s[skip_inline(s, b + line_end(s, b))] == '\n'
}

/// Where the text resumes after a paragraph break at `b`.
pub open spec fn break_end(s: Seq<char>, b: int) -> int {
    skip_inline(s, b + line_end(s, b)) + 1
}

/// The chunks of `s` from the paragraph that starts at `a`, scanning for its
/// end from `b`: each break closes the paragraph and the next one starts
/// after it; the end of the text closes the last one.
pub open spec fn chunks_from(s: Seq<char>, a: int, b: int, n: nat) -> Seq<Seq<char>>
    decreases s.len() - b
    via chunks_from_decreases
{
    if b >= s.len() {
        windows(s.subrange(a, s.len() as int), n)
    } else if is_break(s, b) {
        windows(s.subrange(a, b), n) + chunks_from(s, break_end(s, b), break_end(s, b), n)
    } else {
        chunks_from(s, a, b + 1, n)
    }
}

#[via_fn]
proof fn chunks_from_decreases(s: Seq<char>, a: int, b: int, n: nat) {
    if b < s.len() && is_break(s, b) && b >= 0 {
        lemma_skip_inline(s, b + line_end(s, b));
    }
}

/// Inline whitespace fills the positions that `skip_inline` passes over.
pub proof fn lemma_skip_inline(s: Seq<char>, i: int)
    requires
        0 <= i,
    ensures
        i <= skip_inline(s, i),
        skip_inline(s, i) <= s.len() || skip_inline(s, i) == i,
        forall|k: int| i <= k < skip_inline(s, i) ==> is_inline_space(#[trigger] s[k]),
    decreases s.len() - i,
{
    if 0 <= i < s.len() && is_inline_space(s[i]) {
        lemma_skip_inline(s, i + 1);
    }
}

/// The chunks of a text for a target size.
pub open spec fn chunk_seq(s: Seq<char>, n: nat) -> Seq<Seq<char>> {
    chunks_from(s, 0, 0, n)
}

proof fn lemma_windows_empty(p: Seq<char>, n: nat)
    ensures
        windows(p, n).len() == 0 <==> is_blank(p),
    decreases p.len(),
{
    if !(n == 0 || p.len() <= n) {
        let t = p.take(n as int);
        let d = p.skip(n as int);
        lemma_windows_empty(d, n);
        if is_blank(t) && is_blank(d) {
            assert forall|i: int| 0 <= i < p.len() implies is_space(#[trigger] p[i]) by {
                if i < n {
                    assert(p[i] == t[i]);
                } else {
                    assert(p[i] == d[i - n]);
                }
            }
        }
        if is_blank(p) {
            assert forall|i: int| 0 <= i < t.len() implies is_space(#[trigger] t[i]) by {
                assert(t[i] == p[i]);
            }
            assert forall|i: int| 0 <= i < d.len() implies is_space(#[trigger] d[i]) by {
                assert(d[i] == p[i + n]);
            }
        }
    }
}

/// A paragraph break is whitespace from its start to where the text resumes.
proof fn lemma_break_is_space(s: Seq<char>, b: int)
    requires
        0 <= b,
        is_break(s, b),
    ensures
        b < break_end(s, b) <= s.len(),
        forall|k: int| b <= k < break_end(s, b) ==> is_space(#[trigger] s[k]),
{
    let t = line_end(s, b);
    lemma_skip_inline(s, b + t);
    assert forall|k: int| b <= k < break_end(s, b) implies is_space(#[trigger] s[k]) by {
        if k >= b + t && k < skip_inline(s, b + t) {
            assert(is_inline_space(s[k]));
        }
    }
}

proof fn lemma_chunks_from_empty(s: Seq<char>, a: int, b: int, n: nat)
    requires
        0 <= a <= b <= s.len(),
    ensures
        chunks_from(s, a, b, n).len() == 0 <==> is_blank(s.subrange(a, s.len() as int)),
    decreases s.len() - b,
{
    let all = s.subrange(a, s.len() as int);
    if b >= s.len() {
        lemma_windows_empty(all, n);
    } else if is_break(s, b) {
        let e = break_end(s, b);
        let head = s.subrange(a, b);
        let tail = s.subrange(e, s.len() as int);
        lemma_break_is_space(s, b);
        lemma_windows_empty(head, n);
        lemma_chunks_from_empty(s, e, e, n);
        if is_blank(head) && is_blank(tail) {
            assert forall|i: int| 0 <= i < all.len() implies is_space(#[trigger] all[i]) by {
                if a + i < b {
                    assert(all[i] == head[i]);
                } else if a + i >= e {
                    assert(all[i] == tail[a + i - e]);
                } else {
                    assert(all[i] == s[a + i]);
                }
            }
        }
        if is_blank(all) {
            assert forall|i: int| 0 <= i < head.len() implies is_space(#[trigger] head[i]) by {
                assert(head[i] == all[i]);
            }
            assert forall|i: int| 0 <= i < tail.len() implies is_space(#[trigger] tail[i]) by {
                assert(tail[i] == all[i + e - a]);
            }
        }
    } else {
        lemma_chunks_from_empty(s, a, b + 1, n);
    }
}

/// A text has no chunks exactly when it is empty or whitespace only.
pub proof fn lemma_no_chunks_iff_blank(s: Seq<char>, n: nat)
    ensures
        chunk_seq(s, n).len() == 0 <==> is_blank(s),
{
    lemma_chunks_from_empty(s, 0, 0, n);
    assert(s.subrange(0, s.len() as int) =~= s);
}

/// A chunk as the chunker emits it: not blank, so not empty after trimming,
/// and at most `n` characters when `n > 0`.
pub open spec fn chunk_ok(c: Seq<char>, n: nat) -> bool {
    !is_blank(c) && (n == 0 || c.len() <= n)
}

proof fn lemma_windows_ok(p: Seq<char>, n: nat)
    ensures
        forall|i: int| 0 <= i < windows(p, n).len() ==> chunk_ok(#[trigger] windows(p, n)[i], n),
    decreases p.len(),
{
    if !(n == 0 || p.len() <= n) {
        let d = p.skip(n as int);
        lemma_windows_ok(d, n);
        let w = windows(p, n);
        let k = kept(p.take(n as int));
        assert forall|i: int| 0 <= i < w.len() implies chunk_ok(#[trigger] w[i], n) by {
            if i < k.len() {
                assert(w[i] == k[i]);
            } else {
                assert(w[i] == windows(d, n)[i - k.len()]);
            }
        }
    }
}

proof fn lemma_chunks_from_ok(s: Seq<char>, a: int, b: int, n: nat)
    requires
        0 <= a <= b <= s.len(),
    ensures
        forall|i: int| 0 <= i < chunks_from(s, a, b, n).len() ==> chunk_ok(#[trigger] chunks_from(s, a, b, n)[i], n),
    decreases s.len() - b,
{
    if b >= s.len() {
        lemma_windows_ok(s.subrange(a, s.len() as int), n);
        assert(chunks_from(s, a, b, n) == windows(s.subrange(a, s.len() as int), n));
    } else if is_break(s, b) {
        let e = break_end(s, b);
        lemma_break_is_space(s, b);
        let w = windows(s.subrange(a, b), n);
        lemma_windows_ok(s.subrange(a, b), n);
        lemma_chunks_from_ok(s, e, e, n);
        let c = chunks_from(s, a, b, n);
        assert(c == w + chunks_from(s, e, e, n));
        assert forall|i: int| 0 <= i < c.len() implies chunk_ok(#[trigger] c[i], n) by {
            if i < w.len() {
                assert(c[i] == w[i]);
            } else {
                assert(c[i] == chunks_from(s, e, e, n)[i - w.len()]);
            }
        }
    } else {
        lemma_chunks_from_ok(s, a, b + 1, n);
        assert(chunks_from(s, a, b, n) == chunks_from(s, a, b + 1, n));
    }
}

/// Chunking is a function of the text and the target size: two results that
/// both meet the contract of `chunk_text` for the same text and size have the
/// same chunks, in the same order.
pub proof fn lemma_chunking_deterministic(text: Seq<char>, n: nat, r1: Seq<String>, r2: Seq<String>)
    requires
        string_texts(r1) == chunk_seq(text, n),
        string_texts(r2) == chunk_seq(text, n),
    ensures
        r1.len() == r2.len(),
        forall|i: int| 0 <= i < r1.len() ==> (#[trigger] r1[i])@ == r2[i]@,
{
    assert(string_texts(r1).len() == r1.len());
    assert(string_texts(r2).len() == r2.len());
    assert forall|i: int| 0 <= i < r1.len() implies (#[trigger] r1[i])@ == r2[i]@ by {
        assert(string_texts(r1)[i] == r1[i]@);
        assert(string_texts(r2)[i] == r2[i]@);
    }
}

/// The texts of a sequence of strings.
pub open spec fn string_texts(v: Seq<String>) -> Seq<Seq<char>> {
    v.map_values(|s: String| s@)
}

/// Whether a character is White_Space other than a line feed.
fn inline_space(c: char) -> (r: bool)
    ensures
        r == is_inline_space(c),
{
    c != '\n' && space(c)
}

/// Whether a character is Unicode White_Space.
pub fn space(c: char) -> (r: bool)
    ensures
        r == is_space(c),
{
    let u = c as u32;
    (0x09 <= u && u <= 0x0d) || u == 0x20 || u == 0x85 || u == 0xa0 || u == 0x1680 || (0x2000 <= u && u
        <= 0x200a) || u == 0x2028 || u == 0x2029 || u == 0x202f || u == 0x205f || u == 0x3000
}

/// Whether a text is empty or whitespace only.
pub fn is_blank_text(text: &str) -> (r: bool)
    ensures
        r == is_blank(text@),
{
    let cs = chars_of(text);
    let mut i: usize = 0;
    while i < cs.len()
        invariant
            cs@ == text@,
            i <= cs@.len(),
            forall|j: int| 0 <= j < i ==> is_space(#[trigger] cs@[j]),
        decreases cs@.len() - i,
    {
        if !space(cs[i]) {
            return false;
        }
        i += 1;
    }
    true
}

/// Appends the piece `cs[a..b]` to `out` unless it is blank.
fn push_kept(cs: &Vec<char>, a: usize, b: usize, out: &mut Vec<String>)
    requires
        a <= b <= cs@.len(),
    ensures
        string_texts(final(out)@) == string_texts(old(out)@) + kept(cs@.subrange(a as int, b as int)),
{
    let ghost p = cs@.subrange(a as int, b as int);
    let mut i: usize = a;
    let mut blank = true;
    while i < b
        invariant
            a <= i <= b <= cs@.len(),
            blank == forall|j: int| a <= j < i ==> is_space(#[trigger] cs@[j]),
        decreases b - i,
    {
        if !space(cs[i]) {
            blank = false;
        }
        i += 1;
    }
    assert(blank == is_blank(p)) by {
        if blank {
            assert forall|j: int| 0 <= j < p.len() implies is_space(#[trigger] p[j]) by {
                assert(p[j] == cs@[a + j]);
            }
        } else {
            let j = choose|j: int| a <= j < b && !is_space(#[trigger] cs@[j]);
            assert(p[j - a] == cs@[j]);
        }
    }
    let ghost before = out@;
    if !blank {
        let piece = string_from_chars(slice_subrange(cs.as_slice(), a, b));
        out.push(piece);
        assert(string_texts(out@) =~= string_texts(before) + kept(p));
    } else {
        assert(string_texts(out@) =~= string_texts(before) + kept(p));
    }
}

/// Appends the windows of the paragraph `cs[a..b]` to `out`.
fn push_windows(cs: &Vec<char>, a: usize, b: usize, n: usize, out: &mut Vec<String>)
    requires
        a <= b <= cs@.len(),
    ensures
        string_texts(final(out)@) == string_texts(old(out)@) + windows(cs@.subrange(a as int, b as int), n as nat),
{
    let mut w: usize = a;
    while n > 0 && b - w > n
        invariant
            a <= w <= b <= cs@.len(),
            string_texts(out@) + windows(cs@.subrange(w as int, b as int), n as nat)
                == string_texts(old(out)@) + windows(cs@.subrange(a as int, b as int), n as nat),
        decreases b - w,
    {
        let ghost before = out@;
        let ghost p = cs@.subrange(w as int, b as int);
        push_kept(cs, w, w + n, out);
        proof {
            assert(p.take(n as int) =~= cs@.subrange(w as int, (w + n) as int));
            assert(p.skip(n as int) =~= cs@.subrange((w + n) as int, b as int));
            assert(windows(p, n as nat) == kept(p.take(n as int)) + windows(p.skip(n as int), n as nat));
            assert(string_texts(out@) + windows(p.skip(n as int), n as nat)
                =~= string_texts(before) + windows(p, n as nat));
        }
        w = w + n;
    }
    let ghost before = out@;
    push_kept(cs, w, b, out);
    proof {
        let p = cs@.subrange(w as int, b as int);
        assert(windows(p, n as nat) == kept(p));
        assert(string_texts(out@) =~= string_texts(before) + windows(p, n as nat));
    }
}

/// Splits a text into chunks of at most `target_size` characters: paragraphs
/// at each blank line, longer paragraphs into windows of `target_size`
/// characters, whitespace-only pieces dropped, in order of the text. A target
/// size of 0 keeps every paragraph whole. A blank text has no chunks.
pub fn chunk_text(text: &str, target_size: usize) -> (r: Vec<String>)
    ensures
        string_texts(r@) == chunk_seq(text@, target_size as nat),
        r@.len() == 0 <==> is_blank(text@),
        forall|i: int| 0 <= i < r@.len() ==> chunk_ok(#[trigger] r@[i]@, target_size as nat),
{
    let cs = chars_of(text);
    let len = cs.len();
    let ghost s = cs@;
    let mut out: Vec<String> = Vec::new();
    let mut a: usize = 0;
    let mut b: usize = 0;
    assert(string_texts(out@) =~= Seq::<Seq<char>>::empty());
    while b < len
        invariant
            s == cs@,
            s == text@,
            len == s.len(),
            a <= b <= len,
            string_texts(out@) + chunks_from(s, a as int, b as int, target_size as nat)
                == chunk_seq(s, target_size as nat),
        decreases len - b,
    {
        let t: usize = if cs[b] == '\n' {
            1
        } else if b + 1 < len && cs[b] == '\r' && cs[b + 1] == '\n' {
            2
        } else {
            0
        };
        assert(t == line_end(s, b as int));
        let mut brk = false;
        let mut e: usize = b + t;
        if t > 0 {
            while e < len && inline_space(cs[e])
                invariant
                    s == cs@,
                    len == s.len(),
                    b + t <= e <= len,
                    skip_inline(s, e as int) == skip_inline(s, (b + t) as int),
                decreases len - e,
            {
                e = e + 1;
            }
            assert(skip_inline(s, e as int) == e);
            brk = e < len && cs[e] == '\n';
        }
        assert(brk == is_break(s, b as int));
        if brk {
            let ghost before = out@;
            push_windows(&cs, a, b, target_size, &mut out);
            assert(break_end(s, b as int) == e + 1);
            assert(string_texts(out@) + chunks_from(s, (e + 1) as int, (e + 1) as int, target_size as nat)
                =~= string_texts(before) + chunks_from(s, a as int, b as int, target_size as nat));
            b = e + 1;
            a = b;
        } else {
            b = b + 1;
        }
    }
    let ghost before = out@;
    push_windows(&cs, a, len, target_size, &mut out);
    assert(string_texts(out@) =~= string_texts(before) + chunks_from(s, a as int, b as int, target_size as nat));
    proof {
        lemma_no_chunks_iff_blank(s, target_size as nat);
        lemma_chunks_from_ok(s, 0, 0, target_size as nat);
        assert forall|i: int| 0 <= i < out@.len() implies chunk_ok(#[trigger] out@[i]@, target_size as nat) by {
            assert(string_texts(out@)[i] == out@[i]@);
        }
    }
    out
}

} // verus!
