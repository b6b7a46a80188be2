//! Punctuation-aware text chunker.
//!
//! A sanitized text is split left to right into ordered chunks:
//! sentence boundaries at `.` `!` `?` (unless the text so far ends in
//! a whitelisted abbreviation), clause boundaries at `;` `:`, comma
//! boundaries at `,` (unless the comma is flanked by ASCII digits).
//! A single space following a boundary is attached to the closing
//! chunk.  Each chunk maps to a pause duration taken from its final
//! punctuation mark.

use vstd::prelude::*;

verus! {

/// An ASCII digit.
pub open spec fn is_digit(c: char) -> bool {
    48 <= c as int && c as int <= 57
}

/// A whitespace character: the characters with the Unicode
/// `White_Space` property.
pub open spec fn is_ws(c: char) -> bool {
    ||| c as int == 9
    ||| c as int == 10
    ||| c as int == 11
    ||| c as int == 12
    ||| c as int == 13
    ||| c as int == 32
    ||| c as int == 0x85
    ||| c as int == 0xA0
    ||| c as int == 0x1680
    ||| (0x2000 <= c as int && c as int <= 0x200A)
    ||| c as int == 0x2028
    ||| c as int == 0x2029
    ||| c as int == 0x202F
    ||| c as int == 0x205F
    ||| c as int == 0x3000
}

/// Every character of `s` is whitespace.
pub open spec fn ws_only(s: Seq<char>) -> bool {
    forall|j: int| 0 <= j < s.len() ==> is_ws(#[trigger] s[j])
}

/// `s` ends with the three given characters.
pub open spec fn ends3(s: Seq<char>, a: char, b: char, c: char) -> bool {
    s.len() >= 3 && s[s.len() - 3] == a && s[s.len() - 2] == b && s[s.len() - 1] == c
}

/// `s` ends with the four given characters.
pub open spec fn ends4(s: Seq<char>, a: char, b: char, c: char, d: char) -> bool {
    s.len() >= 4 && s[s.len() - 4] == a && s[s.len() - 3] == b && s[s.len() - 2] == c
        && s[s.len() - 1] == d
}

/// `s` ends with the five given characters.
pub open spec fn ends5(s: Seq<char>, a: char, b: char, c: char, d: char, e: char) -> bool {
    s.len() >= 5 && s[s.len() - 5] == a && s[s.len() - 4] == b && s[s.len() - 3] == c
        && s[s.len() - 2] == d && s[s.len() - 1] == e
}

/// `s` ends with one of the whitelisted abbreviations.
pub open spec fn is_abbrev_end(s: Seq<char>) -> bool {
    ||| ends3(s, 'D', 'r', '.')
    ||| ends3(s, 'M', 'r', '.')
    ||| ends4(s, 'M', 'r', 's', '.')
    ||| ends3(s, 'M', 's', '.')
    ||| ends5(s, 'P', 'r', 'o', 'f', '.')
    ||| ends4(s, 'e', 't', 'c', '.')
    ||| ends3(s, 'v', 's', '.')
    ||| ends4(s, 'e', '.', 'g', '.')
    ||| ends4(s, 'i', '.', 'e', '.')
    ||| ends4(s, 'a', '.', 'm', '.')
    ||| ends4(s, 'p', '.', 'm', '.')
    ||| ends4(s, 'I', 'n', 'c', '.')
    ||| ends4(s, 'L', 't', 'd', '.')
    ||| ends5(s, 'C', 'o', 'r', 'p', '.')
}

/// A chunk boundary falls directly after position `i`.
pub open spec fn boundary_at(s: Seq<char>, i: int) -> bool
    recommends
        0 <= i < s.len(),
{
    let c = s[i];
    if c == '.' || c == '!' || c == '?' {
        !is_abbrev_end(s.take(i + 1))
    } else if c == ';' || c == ':' {
        true
    } else if c == ',' {
        !(0 < i && i + 1 < s.len() && is_digit(s[i - 1]) && is_digit(s[i + 1]))
    } else {
        false
    }
}

/// Where the chunk closed by the boundary at `i` ends: a single
/// following space is attached to the closing chunk.
pub open spec fn boundary_end(s: Seq<char>, i: int) -> int
    recommends
        0 <= i < s.len(),
{
    if i + 1 < s.len() && s[i + 1] == ' ' {
        i + 2
    } else {
        i + 1
    }
}

/// The chunks of `s` from scan position `i`, with the pending chunk
/// starting at `start`.  A trailing whitespace-only remainder is
/// dropped.
pub open spec fn split_rec(s: Seq<char>, start: int, i: int) -> Seq<Seq<char>>
    recommends
        0 <= start <= i <= s.len(),
    decreases s.len() - i,
{
    if i < 0 || i >= s.len() {
        let tail = s.subrange(start, s.len() as int);
        if ws_only(tail) {
            Seq::empty()
        } else {
            seq![tail]
        }
    } else if boundary_at(s, i) {
        let end = boundary_end(s, i);
        seq![s.subrange(start, end)] + split_rec(s, end, end)
    } else {
        split_rec(s, start, i + 1)
    }
}

/// The ordered chunks of a text.  Empty or whitespace-only input
/// yields no chunks.
pub open spec fn split_chunks(s: Seq<char>) -> Seq<Seq<char>> {
    split_rec(s, 0, 0)
}

/// The views of a vector of chunk strings.
pub open spec fn chunk_views(v: Seq<String>) -> Seq<Seq<char>> {
    v.map_values(|c: String| c@)
}

/// The concatenation of a sequence of chunks.
pub open spec fn concat_chunks(cs: Seq<Seq<char>>) -> Seq<char>
    decreases cs.len(),
{
    if cs.len() == 0 {
        Seq::<char>::empty()
    } else {
        cs.first() + concat_chunks(cs.drop_first())
    }
}

/// The chunks produced from scan state `(start, i)` concatenate to a
/// prefix of the unscanned text, and whatever is dropped is
/// whitespace-only.
proof fn lemma_split_rec_reconstruct(s: Seq<char>, start: int, i: int)
    requires
        0 <= start <= i <= s.len(),
    ensures
        ({
            let c = concat_chunks(split_rec(s, start, i));
            &&& c.len() <= s.len() - start
            &&& c == s.subrange(start, start + c.len())
            &&& ws_only(s.subrange(start + c.len(), s.len() as int))
        }),
    decreases s.len() - i,
{
    if i >= s.len() {
        let tail = s.subrange(start, s.len() as int);
        if ws_only(tail) {
            let c = concat_chunks(split_rec(s, start, i));
            assert(c =~= s.subrange(start, start));
        } else {
            let parts = split_rec(s, start, i);
            assert(parts =~= seq![tail]);
            assert(parts.drop_first() =~= Seq::<Seq<char>>::empty());
            let c = concat_chunks(parts);
            assert(concat_chunks(Seq::<Seq<char>>::empty()) =~= Seq::<char>::empty());
            assert(c == parts.first() + concat_chunks(parts.drop_first()));
            assert(c =~= tail + Seq::<char>::empty());
            assert(c =~= tail);
            assert(c =~= s.subrange(start, start + c.len()));
            assert(ws_only(s.subrange(start + c.len(), s.len() as int)));
        }
    } else if boundary_at(s, i) {
        let end = boundary_end(s, i);
        assert(i < end <= s.len());
        lemma_split_rec_reconstruct(s, end, end);
        let piece = s.subrange(start, end);
        let rest = split_rec(s, end, end);
        let parts = split_rec(s, start, i);
        assert(parts == seq![piece] + rest);
        assert(parts.first() == piece);
        assert(parts.drop_first() =~= rest);
        let cr = concat_chunks(rest);
        let c = concat_chunks(parts);
        assert(c == piece + cr);
        assert(cr == s.subrange(end, end + cr.len()));
        assert(c =~= s.subrange(start, start + c.len()));
        assert(s.subrange(start + c.len(), s.len() as int) =~= s.subrange(
            end + cr.len(),
            s.len() as int,
        ));
    } else {
        lemma_split_rec_reconstruct(s, start, i + 1);
    }
}

/// Concatenating the chunk strings reconstructs the input: the
/// concatenation is a prefix of the input, anything dropped after it
/// is whitespace-only, and when the input does not end in whitespace
/// the reconstruction is exact.
pub proof fn lemma_chunks_reconstruct(s: Seq<char>)
    ensures
        ({
            let c = concat_chunks(split_chunks(s));
            &&& c.len() <= s.len()
            &&& c == s.subrange(0, c.len() as int)
            &&& ws_only(s.subrange(c.len() as int, s.len() as int))
            &&& (s.len() > 0 && !is_ws(s[s.len() - 1])) ==> c == s
        }),
{
    lemma_split_rec_reconstruct(s, 0, 0);
    let c = concat_chunks(split_chunks(s));
    if s.len() > 0 && !is_ws(s[s.len() - 1]) {
        if c.len() < s.len() {
            let rem = s.subrange(c.len() as int, s.len() as int);
            assert(rem[rem.len() - 1] == s[s.len() - 1]);
            assert(is_ws(s[s.len() - 1]));
        }
        assert(c =~= s);
    }
}

fn digit_exec(c: char) -> (r: bool)
    ensures
        r == is_digit(c),
{
    let u = c as u32;
    48 <= u && u <= 57
}

fn ws_exec(c: char) -> (r: bool)
    ensures
        r == is_ws(c),
{
    let u = c as u32;
    u == 9 || u == 10 || u == 11 || u == 12 || u == 13 || u == 32 || u == 0x85 || u == 0xA0
        || u == 0x1680 || (0x2000 <= u && u <= 0x200A) || u == 0x2028 || u == 0x2029 || u == 0x202F
        || u == 0x205F || u == 0x3000
}

/// Does the text up to and including position `i` end with a
/// whitelisted abbreviation?
pub(crate) fn abbrev_at(cs: &Vec<char>, i: usize) -> (r: bool)
    requires
        i < cs@.len(),
    ensures
        r == is_abbrev_end(cs@.take(i + 1)),
{
    let ghost t = cs@.take(i + 1);
    assert(t.len() == i + 1);
    assert(forall|j: int| 0 <= j <= i ==> t[j] == cs@[j]);
    let r3 = i >= 2 && {
        let a = cs[i - 2];
        let b = cs[i - 1];
        let c = cs[i];
        (a == 'D' && b == 'r' && c == '.') || (a == 'M' && b == 'r' && c == '.') || (a == 'M' && b
            == 's' && c == '.') || (a == 'v' && b == 's' && c == '.')
    };
    let r4 = i >= 3 && {
        let a = cs[i - 3];
        let b = cs[i - 2];
        let c = cs[i - 1];
        let d = cs[i];
        (a == 'M' && b == 'r' && c == 's' && d == '.') || (a == 'e' && b == 't' && c == 'c' && d
            == '.') || (a == 'e' && b == '.' && c == 'g' && d == '.') || (a == 'i' && b == '.' && c
            == 'e' && d == '.') || (a == 'a' && b == '.' && c == 'm' && d == '.') || (a == 'p' && b
            == '.' && c == 'm' && d == '.') || (a == 'I' && b == 'n' && c == 'c' && d == '.') || (a
            == 'L' && b == 't' && c == 'd' && d == '.')
    };
    let r5 = i >= 4 && {
        let a = cs[i - 4];
        let b = cs[i - 3];
        let c = cs[i - 2];
        let d = cs[i - 1];
        let e = cs[i];
        (a == 'P' && b == 'r' && c == 'o' && d == 'f' && e == '.') || (a == 'C' && b == 'o' && c
            == 'r' && d == 'p' && e == '.')
    };
    r3 || r4 || r5
}

fn has_non_ws(cs: &Vec<char>, from: usize, to: usize) -> (r: bool)
    requires
        from <= to <= cs@.len(),
    ensures
        r == !ws_only(cs@.subrange(from as int, to as int)),
{
    let ghost t = cs@.subrange(from as int, to as int);
    let mut j = from;
    while j < to
        invariant
            from <= j <= to <= cs@.len(),
            t == cs@.subrange(from as int, to as int),
            forall|k: int| from <= k < j ==> is_ws(#[trigger] cs@[k]),
        decreases to - j,
    {
        if !ws_exec(cs[j]) {
            assert(t[j - from] == cs@[j as int]);
            return true;
        }
        j += 1;
    }
    assert(forall|k: int| 0 <= k < t.len() ==> is_ws(#[trigger] t[k]) || t[k] == cs@[k + from]);
    false
}

/// Split a text into ordered chunks at punctuation boundaries, for
/// natural pauses.  The chunks are exactly `split_chunks(text@)`.
pub fn split_text_with_pauses(text: &str) -> (chunks: Vec<String>)
    ensures
        chunk_views(chunks@) == split_chunks(text@),
{
    let ghost s = text@;
    let n = text.unicode_len();
    let mut cs: Vec<char> = Vec::new();
    let mut j: usize = 0;
    while j < n
        invariant
            j <= n,
            n == s.len(),
            s == text@,
            cs@ == s.take(j as int),
        decreases n - j,
    {
        cs.push(text.get_char(j));
        j += 1;
    }
    assert(cs@ =~= s);

    let mut chunks: Vec<String> = Vec::new();
    let mut start: usize = 0;
    let mut i: usize = 0;
    proof {
        assert(chunk_views(chunks@) =~= Seq::<Seq<char>>::empty());
        assert(chunk_views(chunks@) + split_rec(s, 0, 0) =~= split_chunks(s));
    }
    while i < n
        invariant
            start <= i <= n,
            n == s.len(),
            s == text@,
            cs@ == s,
            chunk_views(chunks@) + split_rec(s, start as int, i as int) == split_chunks(s),
        decreases n - i,
    {
        let c = cs[i];
        let boundary: bool = if c == '.' || c == '!' || c == '?' {
            !abbrev_at(&cs, i)
        } else if c == ';' || c == ':' {
            true
        } else if c == ',' {
            let numeric = i > 0 && i + 1 < n && digit_exec(cs[i - 1]) && digit_exec(cs[i + 1]);
            !numeric
        } else {
            false
        };
        assert(boundary == boundary_at(s, i as int));
        if boundary {
            let end = if i + 1 < n && cs[i + 1] == ' ' {
                i + 2
            } else {
                i + 1
            };
            assert(end == boundary_end(s, i as int));
            let piece = text.substring_char(start, end).to_owned();
            let ghost old_views = chunk_views(chunks@);
            chunks.push(piece);
            proof {
                assert(chunk_views(chunks@) =~= old_views.push(piece@));
                assert(split_rec(s, start as int, i as int) == seq![
                    s.subrange(start as int, end as int),
                ] + split_rec(s, end as int, end as int));
                assert(chunk_views(chunks@) + split_rec(s, end as int, end as int)
                    =~= old_views + split_rec(s, start as int, i as int));
            }
            start = end;
            i = end;
        } else {
            proof {
                assert(split_rec(s, start as int, i as int) == split_rec(
                    s,
                    start as int,
                    i + 1 as int,
                ));
            }
            i += 1;
        }
    }
    if start < n {
        if has_non_ws(&cs, start, n) {
            let piece = text.substring_char(start, n).to_owned();
            let ghost old_views = chunk_views(chunks@);
            chunks.push(piece);
            proof {
                assert(split_rec(s, start as int, n as int) =~= seq![
                    s.subrange(start as int, n as int),
                ]);
                assert(chunk_views(chunks@) =~= old_views.push(piece@));
                assert(chunk_views(chunks@) =~= old_views + split_rec(s, start as int, n as int));
            }
        } else {
            proof {
                assert(split_rec(s, start as int, n as int) =~= Seq::<Seq<char>>::empty());
                assert(chunk_views(chunks@) + split_rec(s, start as int, n as int) =~= chunk_views(
                    chunks@,
                ));
            }
        }
    } else {
        proof {
            assert(ws_only(s.subrange(start as int, n as int)));
            assert(split_rec(s, start as int, n as int) =~= Seq::<Seq<char>>::empty());
            assert(chunk_views(chunks@) + split_rec(s, start as int, n as int) =~= chunk_views(
                chunks@,
            ));
        }
    }
    chunks
}

/// The input with trailing whitespace removed.
pub open spec fn trim_end_spec(s: Seq<char>) -> Seq<char>
    decreases s.len(),
{
    if s.len() == 0 {
        s
    } else if is_ws(s.last()) {
        trim_end_spec(s.drop_last())
    } else {
        s
    }
}

/// The pause, in milliseconds, that follows a chunk: 400 after a
/// sentence mark, 250 after `;` or `:`, 150 after `,`, 100 otherwise.
pub open spec fn pause_of(s: Seq<char>) -> u32 {
    let t = trim_end_spec(s);
    if t.len() > 0 && (t.last() == '.' || t.last() == '!' || t.last() == '?') {
        400u32
    } else if t.len() > 0 && (t.last() == ';' || t.last() == ':') {
        250u32
    } else if t.len() > 0 && t.last() == ',' {
        150u32
    } else {
        100u32
    }
}

/// Pause duration in milliseconds for the boundary that closes
/// `chunk`, read from its final punctuation mark.
pub fn get_pause_duration(chunk: &str) -> (ms: u32)
    ensures
        ms == pause_of(chunk@),
{
    let ghost s = chunk@;
    let n = chunk.unicode_len();
    let mut j = n;
    let mut done = false;
    proof {
        assert(s.take(n as int) =~= s);
    }
    while j > 0 && !done
        invariant
            j <= n,
            n == s.len(),
            s == chunk@,
            trim_end_spec(s) == trim_end_spec(s.take(j as int)),
            done ==> j > 0 && !is_ws(s[j - 1]),
        decreases j, (if done { 0int } else { 1int }),
    {
        let c = chunk.get_char(j - 1);
        if ws_exec(c) {
            proof {
                let t = s.take(j as int);
                assert(t.last() == c);
                assert(t.drop_last() =~= s.take(j - 1 as int));
            }
            j -= 1;
        } else {
            done = true;
        }
    }
    if j == 0 {
        proof {
            assert(s.take(0) =~= Seq::<char>::empty());
        }
        return 100;
    }
    let last = chunk.get_char(j - 1);
    proof {
        let t = s.take(j as int);
        assert(t.last() == last);
        assert(!is_ws(t.last()));
        assert(trim_end_spec(t) == t);
        assert(trim_end_spec(s) == t);
    }
    if last == '.' || last == '!' || last == '?' {
        400
    } else if last == ';' || last == ':' {
        250
    } else if last == ',' {
        150
    } else {
        100
    }
}

/// The number of silence samples for a pause: `pause_ms` milliseconds
/// at `sample_rate`, rounded to the nearest sample.
pub open spec fn pause_sample_count(pause_ms: u32, sample_rate: u32) -> u64 {
    ((pause_ms * sample_rate + 500) / 1000) as u64
}

/// Number of zero samples inserted for a pause of `pause_ms`
/// milliseconds at `sample_rate`.
pub fn pause_samples(pause_ms: u32, sample_rate: u32) -> (count: u64)
    ensures
        count == pause_sample_count(pause_ms, sample_rate),
{
    proof {
        assert((pause_ms as u64) * (sample_rate as u64) <= 0xFFFF_FFFFu64 * 0xFFFF_FFFFu64)
            by (nonlinear_arith)
            requires
                pause_ms <= 0xFFFF_FFFFu32 && sample_rate <= 0xFFFF_FFFFu32,
        ;
    }
    ((pause_ms as u64) * (sample_rate as u64) + 500) / 1000
}

} // verus!
