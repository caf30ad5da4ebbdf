use vstd::prelude::*;
use vstd::utf8::*;
use vstd::string::*;

verus! {

broadcast use vstd::utf8::group_utf8_lib;

/// The words of a line of chars: its maximal runs of chars other than ' ',
/// in order, each as the char index range `(start, end)` it covers.
pub open spec fn words(cs: Seq<char>) -> Seq<(int, int)>
    decreases cs.len(),
{
    if cs.len() == 0 {
        seq![]
    } else {
        let w = words(cs.drop_last());
        let n = cs.len() as int;
        if cs.last() == ' ' {
            w
        } else if n >= 2 && cs[n - 2] != ' ' {
            w.update(w.len() - 1, (w.last().0, n))
        } else {
            w.push((n - 1, n))
        }
    }
}

/// A line ends inside a word.
pub open spec fn ends_in_word(cs: Seq<char>) -> bool {
    cs.len() > 0 && cs.last() != ' '
}

/// The words of a line are ordered, disjoint and within the line, and the
/// last one reaches the end of the line exactly when the line ends inside a
/// word.
pub proof fn lemma_words_bounds(cs: Seq<char>)
    ensures
        forall|j: int|
            0 <= j < words(cs).len() ==> 0 <= #[trigger] words(cs)[j].0 < words(cs)[j].1 <= cs.len(),
        forall|j: int|
            0 <= j < words(cs).len() - 1 ==> #[trigger] words(cs)[j].1 < words(cs)[j + 1].0,
        ends_in_word(cs) <==> (words(cs).len() > 0 && words(cs).last().1 == cs.len()),
    decreases cs.len(),
{
    if cs.len() > 0 {
        let p = cs.drop_last();
        lemma_words_bounds(p);
        let n = cs.len() as int;
        if cs.last() == ' ' {
        } else if n >= 2 && cs[n - 2] != ' ' {
            assert(ends_in_word(p));
        } else {
            assert(!ends_in_word(p));
        }
    }
}

/// The chars of each word of a line are other than ' '.
pub proof fn lemma_words_no_space(cs: Seq<char>)
    ensures
        forall|j: int, t: int|
            0 <= j < words(cs).len() && #[trigger] words(cs)[j].0 <= t < words(cs)[j].1
                ==> #[trigger] cs[t] != ' ',
    decreases cs.len(),
{
    if cs.len() > 0 {
        let p = cs.drop_last();
        let n = cs.len() as int;
        lemma_words_no_space(p);
        lemma_words_bounds(p);
        assert forall|t: int| 0 <= t < n - 1 implies cs[t] == p[t] by {}
    }
}

/// Each word of a line is followed by ' ' or by the end of the line.
#[verifier::rlimit(40)]
pub proof fn lemma_words_end_space(cs: Seq<char>)
    ensures
        forall|j: int|
            0 <= j < words(cs).len() && #[trigger] words(cs)[j].1 < cs.len()
                ==> cs[words(cs)[j].1] == ' ',
    decreases cs.len(),
{
    if cs.len() > 0 {
        let p = cs.drop_last();
        let w = words(p);
        let n = cs.len() as int;
        lemma_words_end_space(p);
        lemma_words_bounds(p);
        if cs.last() == ' ' {
            assert forall|j: int| 0 <= j < w.len() && #[trigger] w[j].1 < n
                implies cs[w[j].1] == ' ' by {
                assert(0 <= w[j].0 < w[j].1);
                if w[j].1 < n - 1 {
                    assert(p[w[j].1] == ' ');
                    assert(cs[w[j].1] == p[w[j].1]);
                } else {
                    assert(cs[w[j].1] == cs.last());
                }
            }
        } else if n >= 2 && cs[n - 2] != ' ' {
            assert(ends_in_word(p));
            let v = w.update(w.len() - 1, (w.last().0, n));
            assert forall|j: int| 0 <= j < v.len() && #[trigger] v[j].1 < n
                implies cs[v[j].1] == ' ' by {
                assert(j < w.len() - 1);
                assert(0 <= w[j].0 < w[j].1);
                assert(w[j].1 < w[j + 1].0);
                assert(v[j] == w[j]);
                assert(p[w[j].1] == ' ');
                assert(cs[w[j].1] == p[w[j].1]);
            }
        } else {
            assert(!ends_in_word(p));
            let v = w.push((n - 1, n));
            assert forall|j: int| 0 <= j < v.len() && #[trigger] v[j].1 < n
                implies cs[v[j].1] == ' ' by {
                assert(j < w.len());
                assert(v[j] == w[j]);
                assert(0 <= w[j].0 < w[j].1);
                if j < w.len() - 1 {
                    assert(w[j].1 < w[j + 1].0);
                }
                assert(w[j].1 < n - 1);
                assert(p[w[j].1] == ' ');
                assert(cs[w[j].1] == p[w[j].1]);
            }
        }
    }
}

/// Each word of a line is preceded by ' ' or by the start of the line.
pub proof fn lemma_words_start_space(cs: Seq<char>)
    ensures
        forall|j: int|
            0 <= j < words(cs).len() && #[trigger] words(cs)[j].0 > 0
                ==> cs[words(cs)[j].0 - 1] == ' ',
    decreases cs.len(),
{
    if cs.len() > 0 {
        let p = cs.drop_last();
        let n = cs.len() as int;
        lemma_words_start_space(p);
        lemma_words_bounds(p);
        assert forall|t: int| 0 <= t < n - 1 implies cs[t] == p[t] by {}
    }
}

/// The words of a line that a ' ' has closed: all of them but the last
/// when the line ends inside a word.
pub open spec fn closed_words(cs: Seq<char>) -> Seq<(int, int)> {
    if ends_in_word(cs) {
        words(cs).drop_last()
    } else {
        words(cs)
    }
}

/// The words that a prefix of a line has closed are the first words of the
/// whole line, and the word that the prefix ends inside, if any, is the
/// next word of the line, with the same start.
pub proof fn lemma_words_prefix(cs: Seq<char>, k: int)
    requires
        0 <= k <= cs.len(),
    ensures
        closed_words(cs.take(k)).len() <= words(cs).len(),
        forall|j: int|
            0 <= j < closed_words(cs.take(k)).len() ==> #[trigger] closed_words(cs.take(k))[j]
                == words(cs)[j],
        ends_in_word(cs.take(k)) ==> closed_words(cs.take(k)).len() < words(cs).len()
            && words(cs)[closed_words(cs.take(k)).len() as int].0 == words(cs.take(k)).last().0,
    decreases cs.len() - k,
{
    lemma_words_bounds(cs);
    if k == cs.len() {
        assert(cs.take(k) =~= cs);
    } else {
        lemma_words_prefix(cs, k + 1);
        let a = cs.take(k);
        let b = cs.take(k + 1);
        assert(b.drop_last() =~= a);
        assert(b.last() == cs[k]);
        lemma_words_bounds(a);
        if k > 0 {
            assert(a.last() == cs[k - 1]);
            assert(b[k - 1] == cs[k - 1]);
        }
        let wa = words(a);
        let wb = words(b);
        if cs[k] == ' ' {
            assert(wb == wa);
            assert(!ends_in_word(b));
            if ends_in_word(a) {
                assert(closed_words(a) =~= wb.take(wb.len() - 1));
                assert(wb[wb.len() - 1] == wa.last());
            } else {
                assert(closed_words(a) =~= closed_words(b));
            }
        } else if ends_in_word(a) {
            assert(wb == wa.update(wa.len() - 1, (wa.last().0, k + 1)));
            assert(ends_in_word(b));
            assert(closed_words(a) =~= closed_words(b));
        } else {
            assert(wb == wa.push((k as int, k + 1)));
            assert(ends_in_word(b));
            assert(closed_words(a) =~= closed_words(b));
        }
    }
}

/// Most parts that a line is split into.
pub const MAX_PARTS: usize = 8;

/// The char index ranges of the parts that splitting a line keeps: its
/// first `MAX_PARTS` words.
pub open spec fn split_ranges(cs: Seq<char>) -> Seq<(int, int)> {
    if words(cs).len() <= MAX_PARTS {
        words(cs)
    } else {
        words(cs).take(MAX_PARTS as int)
    }
}

/// Splitting a line has no slot left for its last word: the line ends
/// inside a word that comes after the first `MAX_PARTS` words.
pub open spec fn split_overflows(cs: Seq<char>) -> bool {
    ends_in_word(cs) && words(cs).len() > MAX_PARTS
}

/// Each part is cut out of the line's UTF-8 bytes with its char indices
/// taken as byte indices; the cut is possible when those indices fall on
/// char boundaries of the bytes.
pub open spec fn split_cuts_fit(cs: Seq<char>) -> bool {
    forall|j: int|
        0 <= j < split_ranges(cs).len() ==> is_char_boundary(
            encode_utf8(cs),
            #[trigger] split_ranges(cs)[j].0,
        ) && is_char_boundary(encode_utf8(cs), split_ranges(cs)[j].1)
}

/// The bytes of a line between two char boundaries, taken as a string.
pub proof fn lemma_boundary_shift(bytes: Seq<u8>, s: int, e: int)
    requires
        valid_utf8(bytes),
        0 <= s <= e,
        is_char_boundary(bytes, s),
        is_char_boundary(bytes, e),
    ensures
        valid_utf8(bytes.subrange(s, bytes.len() as int)),
        is_char_boundary(bytes.subrange(s, bytes.len() as int), e - s),
{
    let rest = bytes.subrange(s, bytes.len() as int);
    valid_utf8_split(bytes, s);
    is_char_boundary_start_end_of_seq(bytes);
    is_char_boundary_start_end_of_seq(rest);
    if e < bytes.len() {
        is_char_boundary_iff_not_is_continuation_byte(bytes, e);
        is_char_boundary_iff_not_is_continuation_byte(rest, e - s);
        assert(rest[e - s] == bytes[e]);
    } else {
        if e > bytes.len() {
            reveal_with_fuel(is_char_boundary, 1);
            assert(false);
        }
    }
}

/// The part of `line` whose bytes run from byte `s` to byte `e`.
pub(crate) fn cut<'a>(line: &'a str, s: usize, e: usize) -> (r: &'a str)
    requires
        s <= e,
        is_char_boundary(line.spec_bytes(), s as int),
        is_char_boundary(line.spec_bytes(), e as int),
    ensures
        r.spec_bytes() == line.spec_bytes().subrange(s as int, e as int),
{
    proof {
        lemma_boundary_shift(line.spec_bytes(), s as int, e as int);
    }
    let (_, rest) = line.split_at(s);
    assert(rest.spec_bytes() =~= line.spec_bytes().subrange(s as int, line.spec_bytes().len() as int));
    let (part, _) = rest.split_at(e - s);
    assert(part.spec_bytes() =~= line.spec_bytes().subrange(s as int, e as int));
    part
}

/// A word: not empty, and no char of it is ' '.
pub open spec fn is_word(w: Seq<char>) -> bool {
    w.len() > 0 && forall|t: int| 0 <= t < w.len() ==> #[trigger] w[t] != ' '
}

/// The line made of words `ws` separated by single spaces.
pub open spec fn join(ws: Seq<Seq<char>>) -> Seq<char>
    decreases ws.len(),
{
    if ws.len() == 0 {
        Seq::<char>::empty()
    } else if ws.len() == 1 {
        ws[0]
    } else {
        join(ws.drop_last()).push(' ') + ws.last()
    }
}

/// A word after the start of a line or after a ' ' adds one word to the
/// line's words.
proof fn lemma_words_append_word(a: Seq<char>, w: Seq<char>)
    requires
        is_word(w),
        a.len() == 0 || a.last() == ' ',
    ensures
        words(a + w) == words(a).push((a.len() as int, (a.len() + w.len()) as int)),
    decreases w.len(),
{
    let cs = a + w;
    let n = cs.len() as int;
    assert(cs.last() == w.last());
    if w.len() == 1 {
        assert(cs.drop_last() =~= a);
        if n >= 2 {
            assert(cs[n - 2] == a.last());
        }
    } else {
        let v = w.drop_last();
        assert(cs.drop_last() =~= a + v);
        assert(is_word(v)) by {
            assert forall|t: int| 0 <= t < v.len() implies #[trigger] v[t] != ' ' by {
                assert(v[t] == w[t]);
            }
        }
        lemma_words_append_word(a, v);
        assert(cs[n - 2] == w[w.len() - 2]);
        assert(words(a + w) =~= words(a).push((a.len() as int, (a.len() + w.len()) as int)));
    }
}

/// An ASCII line's bytes are its chars, so every index of it falls on a
/// char boundary, and the bytes of each piece of it are the piece's chars.
pub proof fn lemma_ascii_bytes(cs: Seq<char>)
    requires
        is_ascii_chars(cs),
    ensures
        encode_utf8(cs).len() == cs.len(),
        forall|i: int| 0 <= i <= cs.len() ==> #[trigger] is_char_boundary(encode_utf8(cs), i),
        forall|s: int, e: int|
            0 <= s <= e <= cs.len() ==> #[trigger] encode_utf8(cs).subrange(s, e) == encode_utf8(
                cs.subrange(s, e),
            ),
{
    let b = encode_utf8(cs);
    is_ascii_chars_encode_utf8(cs);
    is_char_boundary_start_end_of_seq(b);
    assert forall|i: int| 0 <= i <= cs.len() implies #[trigger] is_char_boundary(b, i) by {
        if i < cs.len() {
            is_char_boundary_iff_not_is_continuation_byte(b, i);
            assert((cs[i] as u32) < 128);
            assert(b[i] == cs[i] as u8);
            assert(b[i] < 128);
        }
    }
    assert forall|s: int, e: int| 0 <= s <= e <= cs.len() implies #[trigger] b.subrange(s, e)
        == encode_utf8(cs.subrange(s, e)) by {
        let sub = cs.subrange(s, e);
        assert(is_ascii_chars(sub)) by {
            assert forall|k: int| 0 <= k < sub.len() implies '\0' <= #[trigger] sub[k] <= '\u{7f}' by {
                assert(sub[k] == cs[s + k]);
            }
        }
        is_ascii_chars_encode_utf8(sub);
        assert(b.subrange(s, e) =~= encode_utf8(sub)) by {
            assert forall|k: int| 0 <= k < e - s implies #[trigger] b.subrange(s, e)[k] == encode_utf8(sub)[k] by {
                assert(sub[k] == cs[s + k]);
            }
        }
    }
}

/// The words of a line made of words separated by single spaces are those
/// words.
proof fn lemma_words_join(ws: Seq<Seq<char>>)
    requires
        forall|j: int| 0 <= j < ws.len() ==> is_word(#[trigger] ws[j]),
    ensures
        words(join(ws)).len() == ws.len(),
        forall|j: int|
            0 <= j < ws.len() ==> join(ws).subrange(
                #[trigger] words(join(ws))[j].0,
                words(join(ws))[j].1,
            ) == ws[j],
        ws.len() > 0 ==> ends_in_word(join(ws)),
    decreases ws.len(),
{
    if ws.len() == 1 {
        assert(is_word(ws[0]));
        lemma_words_append_word(Seq::<char>::empty(), ws[0]);
        assert(Seq::<char>::empty() + ws[0] =~= ws[0]);
        assert(words(Seq::<char>::empty()) =~= Seq::<(int, int)>::empty());
        assert(join(ws).subrange(0, ws[0].len() as int) =~= ws[0]);
    } else if ws.len() > 1 {
        let p = ws.drop_last();
        let w = ws.last();
        assert(is_word(w));
        lemma_words_join(p);
        let a = join(p).push(' ');
        assert(a.drop_last() =~= join(p));
        assert(words(a) == words(join(p)));
        lemma_words_append_word(a, w);
        let cs = join(ws);
        assert(cs == a + w);
        assert forall|j: int| 0 <= j < ws.len() implies cs.subrange(
            #[trigger] words(cs)[j].0,
            words(cs)[j].1,
        ) == ws[j] by {
            if j < p.len() {
                lemma_words_bounds(join(p));
                let r = words(join(p))[j];
                assert(words(cs)[j] == r);
                assert(cs.subrange(r.0, r.1) =~= join(p).subrange(r.0, r.1));
                assert(p[j] == ws[j]);
            } else {
                assert(cs.subrange(a.len() as int, cs.len() as int) =~= w);
            }
        }
    }
}

/// Splitting a line made of at most `MAX_PARTS` words separated by single
/// spaces gives back those words, in order; when the line is ASCII, the
/// split can cut it and each part's bytes are its word's bytes.
pub proof fn law_split_join(ws: Seq<Seq<char>>)
    requires
        ws.len() <= MAX_PARTS,
        forall|j: int| 0 <= j < ws.len() ==> is_word(#[trigger] ws[j]),
    ensures
        !split_overflows(join(ws)),
        split_ranges(join(ws)).len() == ws.len(),
        forall|j: int|
            0 <= j < ws.len() ==> join(ws).subrange(
                #[trigger] split_ranges(join(ws))[j].0,
                split_ranges(join(ws))[j].1,
            ) == ws[j],
        is_ascii_chars(join(ws)) ==> split_cuts_fit(join(ws)),
        is_ascii_chars(join(ws)) ==> forall|j: int|
            0 <= j < ws.len() ==> encode_utf8(join(ws)).subrange(
                #[trigger] split_ranges(join(ws))[j].0,
                split_ranges(join(ws))[j].1,
            ) == encode_utf8(ws[j]),
{
    let cs = join(ws);
    lemma_words_join(ws);
    lemma_words_bounds(cs);
    assert(split_ranges(cs) == words(cs));
    if is_ascii_chars(cs) {
        lemma_ascii_bytes(cs);
        assert forall|j: int| 0 <= j < ws.len() implies encode_utf8(cs).subrange(
            #[trigger] split_ranges(cs)[j].0,
            split_ranges(cs)[j].1,
        ) == encode_utf8(ws[j]) by {
            let r = words(cs)[j];
            assert(0 <= r.0 < r.1 <= cs.len());
            assert(cs.subrange(r.0, r.1) == ws[j]);
        }
        assert forall|j: int| 0 <= j < split_ranges(cs).len() implies is_char_boundary(
            encode_utf8(cs),
            #[trigger] split_ranges(cs)[j].0,
        ) && is_char_boundary(encode_utf8(cs), split_ranges(cs)[j].1) by {
            let r = words(cs)[j];
            assert(0 <= r.0 < r.1 <= cs.len());
        }
    }
}

/// Every part that splitting a line keeps is a word of the line: a
/// non-empty run of chars other than ' ' that starts at the start of the
/// line or after a ' ' and ends at the end of the line or before a ' '; the
/// parts are in order and apart.
pub proof fn law_split_parts_are_words(cs: Seq<char>)
    ensures
        forall|j: int|
            0 <= j < split_ranges(cs).len() ==> (#[trigger] split_ranges(cs)[j].0 == 0 || cs[split_ranges(
                cs,
            )[j].0 - 1] == ' ') && (split_ranges(cs)[j].1 == cs.len() || cs[split_ranges(cs)[j].1]
                == ' '),
        split_ranges(cs).len() <= MAX_PARTS,
        forall|j: int|
            0 <= j < split_ranges(cs).len() ==> is_word(
                cs.subrange(#[trigger] split_ranges(cs)[j].0, split_ranges(cs)[j].1),
            ),
        forall|j: int|
            0 <= j < split_ranges(cs).len() - 1 ==> #[trigger] split_ranges(cs)[j].1 < split_ranges(
                cs,
            )[j + 1].0,
{
    lemma_words_bounds(cs);
    lemma_words_no_space(cs);
    lemma_words_start_space(cs);
    lemma_words_end_space(cs);
    let w = words(cs);
    assert forall|j: int| 0 <= j < split_ranges(cs).len() implies (#[trigger] split_ranges(cs)[j].0
        == 0 || cs[split_ranges(cs)[j].0 - 1] == ' ') && (split_ranges(cs)[j].1 == cs.len()
        || cs[split_ranges(cs)[j].1] == ' ') by {
        assert(split_ranges(cs)[j] == w[j]);
        assert(w[j].0 > 0 ==> cs[w[j].0 - 1] == ' ');
        assert(w[j].1 < cs.len() ==> cs[w[j].1] == ' ');
    }
    assert forall|j: int| 0 <= j < split_ranges(cs).len() implies is_word(
        cs.subrange(#[trigger] split_ranges(cs)[j].0, split_ranges(cs)[j].1),
    ) by {
        let r = w[j];
        assert(split_ranges(cs)[j] == r);
        let sub = cs.subrange(r.0, r.1);
        assert forall|t: int| 0 <= t < sub.len() implies #[trigger] sub[t] != ' ' by {
            assert(sub[t] == cs[r.0 + t]);
            assert(w[j].0 <= r.0 + t < w[j].1);
        }
    }
    assert forall|j: int| 0 <= j < split_ranges(cs).len() - 1 implies #[trigger] split_ranges(cs)[j].1
        < split_ranges(cs)[j + 1].0 by {
        assert(split_ranges(cs)[j] == w[j]);
        assert(split_ranges(cs)[j + 1] == w[j + 1]);
    }
}

/// The texts of a sequence of strings.
pub open spec fn views(strs: Seq<&str>) -> Seq<Seq<char>> {
    strs.map_values(|s: &str| s@)
}

/// The contents of a sequence of byte buffers.
pub open spec fn byte_texts(bufs: Seq<Vec<u8>>) -> Seq<Seq<u8>> {
    bufs.map_values(|b: Vec<u8>| b@)
}

/// The decimal digits of a number, in ASCII.
pub open spec fn decimal(n: nat) -> Seq<u8>
    decreases n,
{
    if n < 10 {
        seq![(48 + n) as u8]
    } else {
        decimal(n / 10).push((48 + n % 10) as u8)
    }
}

/// The number that a string of ASCII decimal digits reads as, most
/// significant digit first.
pub open spec fn digits_value(s: Seq<u8>) -> nat
    decreases s.len(),
{
    if s.len() == 0 {
        0
    } else {
        digits_value(s.drop_last()) * 10 + (s.last() - 48) as nat
    }
}

/// `decimal(n)` is how `n` is written in base 10: it is made of the ASCII
/// digits '0' to '9', has no leading zero (but for `n == 0`, which is
/// "0"), and reads back as `n`.
pub proof fn law_decimal_reads_back(n: nat)
    ensures
        decimal(n).len() > 0,
        forall|j: int| 0 <= j < decimal(n).len() ==> 48 <= #[trigger] decimal(n)[j] <= 57,
        decimal(n).len() > 1 ==> decimal(n)[0] != 48,
        n == 0 ==> decimal(n) == seq![48u8],
        digits_value(decimal(n)) == n,
    decreases n,
{
    if n < 10 {
        assert(decimal(n).drop_last() =~= Seq::<u8>::empty());
        assert(digits_value(Seq::<u8>::empty()) == 0);
        assert(digits_value(decimal(n)) == digits_value(decimal(n).drop_last()) * 10 + (decimal(n).last() - 48) as nat);
    } else {
        let q = n / 10;
        let r = n % 10;
        law_decimal_reads_back(q);
        assert(q * 10 + r == n);
        assert(0 < q);
        let d = decimal(n);
        assert(d == decimal(q).push((48 + r) as u8));
        assert(d.drop_last() =~= decimal(q));
        assert(d[0] == decimal(q)[0]);
        assert forall|j: int| 0 <= j < d.len() implies 48 <= #[trigger] d[j] <= 57 by {
            if j < d.len() - 1 {
                assert(d[j] == decimal(q)[j]);
            }
        }
        if decimal(q).len() == 1 {
            let dq = decimal(q);
            assert(dq.drop_last() =~= Seq::<u8>::empty());
            assert(digits_value(Seq::<u8>::empty()) == 0);
            assert(digits_value(dq) == digits_value(dq.drop_last()) * 10 + (dq.last() - 48) as nat);
            assert(dq[0] != 48);
        }
        assert(digits_value(d) == digits_value(d.drop_last()) * 10 + (d.last() - 48) as nat);
        assert(d.last() == (48 + r) as u8);
    }
}

/// Appends the decimal digits of `n` to a buffer.
pub fn push_decimal(buf: &mut Vec<u8>, n: u64)
    ensures
        final(buf)@ == old(buf)@ + decimal(n as nat),
    decreases n,
{
    if n < 10 {
        buf.push(48 + n as u8);
    } else {
        push_decimal(buf, n / 10);
        buf.push(48 + (n % 10) as u8);
        assert(decimal(n as nat) == decimal((n / 10) as nat).push((48 + n % 10) as u8));
    }
}

/// Two strings are equal.
pub fn str_eq(a: &str, b: &str) -> (r: bool)
    ensures
        r == (a@ == b@),
{
    let x = a.as_bytes();
    let y = b.as_bytes();
    assert(x@ == encode_utf8(a@));
    assert(y@ == encode_utf8(b@));
    proof {
        vstd::utf8::encode_utf8_decode_utf8(a@);
        vstd::utf8::encode_utf8_decode_utf8(b@);
    }
    if x.len() != y.len() {
        return false;
    }
    let mut i: usize = 0;
    while i < x.len()
        invariant
            x@.len() == y@.len(),
            x@ == encode_utf8(a@),
            y@ == encode_utf8(b@),
            i <= x@.len(),
            forall|j: int| 0 <= j < i ==> x@[j] == y@[j],
        decreases x@.len() - i,
    {
        if x[i] != y[i] {
            assert(x@ != y@);
            return false;
        }
        i = i + 1;
    }
    assert(x@ =~= y@);
    true
}

/// Appends bytes to a buffer.
pub fn append(buf: &mut Vec<u8>, bytes: &[u8])
    ensures
        final(buf)@ == old(buf)@ + bytes@,
{
    let mut i: usize = 0;
    while i < bytes.len()
        invariant
            i <= bytes@.len(),
            buf@ == old(buf)@ + bytes@.take(i as int),
        decreases bytes@.len() - i,
    {
        buf.push(bytes[i]);
        i = i + 1;
        assert(bytes@.take(i as int) =~= bytes@.take(i - 1).push(bytes@[i - 1]));
    }
    assert(bytes@.take(i as int) =~= bytes@);
}

/// Whether each range can cut `text`: both its ends fall on char
/// boundaries of the text's bytes.
pub fn cuts_fit(text: &str, ranges: &Vec<(usize, usize)>) -> (r: bool)
    ensures
        r == forall|t: int|
            #![trigger ranges@[t]]
            0 <= t < ranges@.len() ==> is_char_boundary(text.spec_bytes(), ranges@[t].0 as int)
                && is_char_boundary(text.spec_bytes(), ranges@[t].1 as int),
{
    let mut j: usize = 0;
    while j < ranges.len()
        invariant
            j <= ranges@.len(),
            forall|t: int|
                #![trigger ranges@[t]]
                0 <= t < j ==> is_char_boundary(text.spec_bytes(), ranges@[t].0 as int)
                    && is_char_boundary(text.spec_bytes(), ranges@[t].1 as int),
        decreases ranges@.len() - j,
    {
        let r = ranges[j];
        assert(r == ranges@[j as int]);
        if !(text.is_char_boundary(r.0) && text.is_char_boundary(r.1)) {
            return false;
        }
        j = j + 1;
    }
    true
}

/// `std::str::from_utf8`: a string exactly when the bytes are UTF-8, and
/// then the string whose bytes they are.
#[verifier::external_body]
pub(crate) fn str_from_utf8(bytes: &[u8]) -> (r: Option<&str>)
    ensures
        r is Some <==> valid_utf8(bytes@),
        r matches Some(s) ==> s.spec_bytes() == bytes@,
{
    std::str::from_utf8(bytes).ok()
}

} // verus!
