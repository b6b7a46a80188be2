//! Text sanitation for speech.
//!
//! Strips markdown artifacts (code fences, inline code, links, bold
//! and italic marks, list markers), normalizes whitespace and
//! punctuation spacing, and widens the gaps after punctuation so the
//! synthesizer pauses naturally.  The chunker consumes the sanitized
//! text and needs only its punctuation; beyond keeping a non-empty
//! input non-empty, the exact shape of the sanitized text is not part
//! of the library's contracts.

use vstd::prelude::*;
use crate::chunker::{is_abbrev_end, is_ws};

verus! {

fn ws_exec(c: char) -> (r: bool)
    ensures
        r == is_ws(c),
{
    let u = c as u32;
    u == 9 || u == 10 || u == 11 || u == 12 || u == 13 || u == 32 || u == 0x85 || u == 0xA0
        || u == 0x1680 || (0x2000 <= u && u <= 0x200A) || u == 0x2028 || u == 0x2029 || u == 0x202F
        || u == 0x205F || u == 0x3000
}

/// `take(from)` and `skip(to)` of the characters, joined.
fn remove_range(cs: &Vec<char>, from: usize, to: usize) -> (out: Vec<char>)
    requires
        from <= to <= cs@.len(),
    ensures
        out@ == cs@.take(from as int) + cs@.skip(to as int),
        out@.len() == cs@.len() - (to - from),
{
    let mut out: Vec<char> = Vec::new();
    let mut i: usize = 0;
    while i < from
        invariant
            i <= from <= cs@.len(),
            out@ == cs@.take(i as int),
        decreases from - i,
    {
        out.push(cs[i]);
        proof {
            assert(out@ =~= cs@.take(i + 1));
        }
        i += 1;
    }
    let mut j: usize = to;
    while j < cs.len()
        invariant
            from <= to <= j <= cs@.len(),
            out@ == cs@.take(from as int) + cs@.subrange(to as int, j as int),
        decreases cs@.len() - j,
    {
        out.push(cs[j]);
        proof {
            assert(out@ =~= cs@.take(from as int) + cs@.subrange(to as int, j + 1));
        }
        j += 1;
    }
    proof {
        assert(cs@.subrange(to as int, cs@.len() as int) =~= cs@.skip(to as int));
    }
    out
}

/// Index of the first occurrence of three adjacent backticks at or
/// after `from`.
fn find_fence(cs: &Vec<char>, from: usize) -> (found: Option<usize>)
    ensures
        found matches Some(i) ==> from <= i && i + 3 <= cs@.len(),
{
    if cs.len() < 3 {
        return None;
    }
    let last = cs.len() - 3;
    let mut i = from;
    while i <= last
        invariant
            from <= i,
            last + 3 == cs@.len(),
            cs@.len() <= usize::MAX,
        decreases last + 1 - i,
    {
        if cs[i] == '`' && cs[i + 1] == '`' && cs[i + 2] == '`' {
            return Some(i);
        }
        i += 1;
    }
    None
}

fn find_char(cs: &Vec<char>, from: usize, c: char) -> (found: Option<usize>)
    ensures
        found matches Some(i) ==> from <= i && i < cs@.len(),
{
    let mut i = from;
    while i < cs.len()
        invariant
            from <= i,
        decreases cs@.len() - i,
    {
        if cs[i] == c {
            return Some(i);
        }
        i += 1;
    }
    None
}

/// Remove fenced code blocks: everything from one triple backtick
/// through the next.
fn strip_code_fences(cs: Vec<char>) -> (out: Vec<char>) {
    let mut cs = cs;
    let mut done = false;
    while !done
        decreases cs@.len() + (if done {
            0int
        } else {
            1int
        }),
    {
        let n = cs.len();
        proof {
            assert(n == cs@.len());
        }
        let start = find_fence(&cs, 0);
        match start {
            Some(i) => {
                match find_fence(&cs, i + 3) {
                    Some(j) => {
                        cs = remove_range(&cs, i, j + 3);
                    },
                    None => {
                        done = true;
                    },
                }
            },
            None => {
                done = true;
            },
        }
    }
    cs
}

/// Remove inline code backticks, keeping their content.
fn strip_inline_code(cs: Vec<char>) -> (out: Vec<char>) {
    let mut cs = cs;
    let mut done = false;
    while !done
        decreases cs@.len() + (if done {
            0int
        } else {
            1int
        }),
    {
        let n = cs.len();
        proof {
            assert(n == cs@.len());
        }
        match find_char(&cs, 0, '`') {
            Some(i) => {
                match find_char(&cs, i + 1, '`') {
                    Some(j) => {
                        cs.remove(j);
                        cs.remove(i);
                    },
                    None => {
                        done = true;
                    },
                }
            },
            None => {
                done = true;
            },
        }
    }
    cs
}

/// Replace markdown links `[text](url)` by their text.
fn strip_links(cs: Vec<char>) -> (out: Vec<char>) {
    let mut cs = cs;
    let mut pos: usize = 0;
    let mut done = false;
    while !done
        invariant
            pos <= cs@.len(),
        decreases cs@.len() - pos + (if done {
            0int
        } else {
            1int
        }),
    {
        let n = cs.len();
        proof {
            assert(n == cs@.len());
        }
        match find_char(&cs, pos, '[') {
            Some(start) => {
                match find_char(&cs, start + 1, ']') {
                    Some(mid) => {
                        match find_char(&cs, mid + 1, ')') {
                            Some(end) => {
                                // keep [start+1, mid), drop the rest of the link
                                let with_text = remove_range(&cs, mid, end + 1);
                                let shrunk = remove_range(&with_text, start, start + 1);
                                cs = shrunk;
                                pos = if mid >= 1 {
                                    mid - 1
                                } else {
                                    0
                                };
                                proof {
                                    assert(pos <= cs@.len());
                                }
                            },
                            None => {
                                done = true;
                            },
                        }
                    },
                    None => {
                        done = true;
                    },
                }
            },
            None => {
                done = true;
            },
        }
    }
    cs
}

/// Remove every occurrence of a character.
fn remove_char(cs: &Vec<char>, c: char) -> (out: Vec<char>)
    ensures
        out@ == cs@.filter(|x: char| x != c),
{
    let mut out: Vec<char> = Vec::new();
    let mut i: usize = 0;
    proof {
        assert(cs@.take(0).filter(|x: char| x != c) =~= Seq::<char>::empty());
    }
    while i < cs.len()
        invariant
            i <= cs@.len(),
            out@ == cs@.take(i as int).filter(|x: char| x != c),
        decreases cs@.len() - i,
    {
        proof {
            assert(cs@.take(i + 1).drop_last() =~= cs@.take(i as int));
            assert(cs@.take(i + 1).last() == cs@[i as int]);
            reveal_with_fuel(Seq::filter, 2);
        }
        if cs[i] != c {
            out.push(cs[i]);
        }
        i += 1;
    }
    proof {
        assert(cs@.take(cs@.len() as int) =~= cs@);
    }
    out
}

/// Remove adjacent pairs of the character, left to right.
fn remove_pairs(cs: Vec<char>, c: char) -> (out: Vec<char>) {
    let mut out: Vec<char> = Vec::new();
    let mut i: usize = 0;
    while i < cs.len()
        invariant
            i <= cs@.len() + 1,
        decreases cs@.len() - i,
    {
        if i + 1 < cs.len() && cs[i] == c && cs[i + 1] == c {
            i += 2;
        } else {
            out.push(cs[i]);
            i += 1;
        }
    }
    out
}

fn chars_match(cs: &Vec<char>, at: usize, pat: &Vec<char>) -> (m: bool)
    requires
        at + pat@.len() <= cs@.len(),
{
    let n = cs.len();
    proof {
        assert(n == cs@.len());
    }
    let mut k: usize = 0;
    while k < pat.len()
        invariant
            k <= pat@.len(),
            at + pat@.len() <= cs@.len(),
            cs@.len() <= usize::MAX,
        decreases pat@.len() - k,
    {
        if cs[at + k] != pat[k] {
            return false;
        }
        k += 1;
    }
    true
}

/// Replace occurrences of `pat` by `rep`, scanning once left to
/// right; `rep` must be shorter than `pat`.
fn replace_all(cs: Vec<char>, pat: &Vec<char>, rep: &Vec<char>) -> (out: Vec<char>)
    requires
        rep@.len() < pat@.len(),
{
    let mut out: Vec<char> = Vec::new();
    let mut i: usize = 0;
    while i < cs.len()
        invariant
            i <= cs@.len(),
            rep@.len() < pat@.len(),
        decreases cs@.len() - i,
    {
        if pat.len() <= cs.len() - i && chars_match(&cs, i, pat) {
            let mut k: usize = 0;
            while k < rep.len()
                invariant
                    k <= rep@.len(),
                decreases rep@.len() - k,
            {
                out.push(rep[k]);
                k += 1;
            }
            i += pat.len();
        } else {
            out.push(cs[i]);
            i += 1;
        }
    }
    out
}

/// Strip the list markers `- `, `+ ` and `N. ` from the start of
/// each line.
fn strip_list_markers(cs: Vec<char>) -> (out: Vec<char>) {
    let mut out: Vec<char> = Vec::new();
    let mut i: usize = 0;
    // at_line_start: no non-newline character seen since the last
    // line break
    let mut line_start: bool = true;
    while i < cs.len()
        invariant
            i <= cs@.len(),
        decreases cs@.len() - i,
    {
        if line_start {
            // look ahead past leading whitespace of the line
            let mut j = i;
            while j < cs.len() && cs[j] != '\n' && ws_exec(cs[j])
                invariant
                    i <= j <= cs@.len(),
                decreases cs@.len() - j,
            {
                j += 1;
            }
            let mut stripped = false;
            if j < cs.len() && j + 1 < cs.len() && (cs[j] == '-' || cs[j] == '+') && cs[j + 1]
                == ' ' {
                // drop the whole prefix including the marker
                let mut k = i;
                while k < j
                    invariant
                        i <= k <= j <= cs@.len(),
                    decreases j - k,
                {
                    out.push(cs[k]);
                    k += 1;
                }
                i = j + 2;
                stripped = true;
            } else {
                // a run of digits directly followed by ". "
                let mut d = j;
                while d < cs.len() && '0' <= cs[d] && cs[d] <= '9'
                    invariant
                        j <= d <= cs@.len(),
                    decreases cs@.len() - d,
                {
                    d += 1;
                }
                if d < cs.len() && d + 1 < cs.len() && cs[d] == '.' && cs[d + 1] == ' ' {
                    let mut k = i;
                    while k < j
                        invariant
                            i <= k <= j <= cs@.len(),
                        decreases j - k,
                    {
                        out.push(cs[k]);
                        k += 1;
                    }
                    i = d + 2;
                    stripped = true;
                }
            }
            if !stripped {
                out.push(cs[i]);
                line_start = cs[i] == '\n';
                i += 1;
            } else {
                line_start = false;
            }
        } else {
            out.push(cs[i]);
            line_start = cs[i] == '\n';
            i += 1;
        }
    }
    out
}

/// Collapse every whitespace run to a single space.
fn collapse_whitespace(cs: Vec<char>) -> (out: Vec<char>) {
    let mut out: Vec<char> = Vec::new();
    let mut i: usize = 0;
    let mut last_ws = false;
    while i < cs.len()
        invariant
            i <= cs@.len(),
        decreases cs@.len() - i,
    {
        if ws_exec(cs[i]) {
            if !last_ws {
                out.push(' ');
                last_ws = true;
            }
        } else {
            out.push(cs[i]);
            last_ws = false;
        }
        i += 1;
    }
    out
}

fn punct_exec(c: char) -> bool {
    c == ',' || c == '.' || c == '!' || c == '?' || c == ';' || c == ':'
}

/// Drop a space that stands directly before punctuation.
fn drop_space_before_punct(cs: Vec<char>) -> (out: Vec<char>) {
    let mut out: Vec<char> = Vec::new();
    let mut i: usize = 0;
    while i < cs.len()
        invariant
            i <= cs@.len(),
        decreases cs@.len() - i,
    {
        if cs[i] == ' ' && i + 1 < cs.len() && punct_exec(cs[i + 1]) {
        } else {
            out.push(cs[i]);
        }
        i += 1;
    }
    out
}

fn abbrev_at_clean(cs: &Vec<char>, i: usize) -> (r: bool)
    requires
        i < cs@.len(),
    ensures
        r == is_abbrev_end(cs@.take(i + 1)),
{
    crate::chunker::abbrev_at(cs, i)
}

/// Widen the gap after punctuation: two spaces after a comma, three
/// after a clause mark, four after a sentence mark (one after an
/// abbreviation), when the next character does not already separate.
fn add_pause_hints(cs: Vec<char>) -> (out: Vec<char>) {
    let mut out: Vec<char> = Vec::new();
    let mut i: usize = 0;
    while i < cs.len()
        invariant
            i <= cs@.len(),
        decreases cs@.len() - i,
    {
        let c = cs[i];
        out.push(c);
        if i + 1 < cs.len() {
            let next = cs[i + 1];
            let separates = ws_exec(next) || punct_exec(next) || next == ')';
            if c == ',' && !separates {
                out.push(' ');
                out.push(' ');
            } else if (c == ';' || c == ':') && !separates {
                out.push(' ');
                out.push(' ');
                out.push(' ');
            } else if (c == '.' || c == '!' || c == '?') && !separates {
                if !abbrev_at_clean(&cs, i) {
                    out.push(' ');
                    out.push(' ');
                    out.push(' ');
                    out.push(' ');
                } else {
                    out.push(' ');
                }
            }
        }
        i += 1;
    }
    out
}

/// Cap runs of spaces at four.
fn cap_spaces(cs: Vec<char>) -> (out: Vec<char>) {
    let mut out: Vec<char> = Vec::new();
    let mut i: usize = 0;
    let mut run: usize = 0;
    while i < cs.len()
        invariant
            i <= cs@.len(),
            run <= i,
        decreases cs@.len() - i,
    {
        if cs[i] == ' ' {
            run += 1;
            if run <= 4 {
                out.push(' ');
            }
        } else {
            run = 0;
            out.push(cs[i]);
        }
        i += 1;
    }
    out
}

/// Drop leading and trailing whitespace.
fn trim_chars(cs: Vec<char>) -> (out: Vec<char>)
    ensures
        out@.len() > 0 ==> !is_ws(out@[0]) && !is_ws(out@[out@.len() - 1]),
{
    let mut start: usize = 0;
    while start < cs.len() && ws_exec(cs[start])
        invariant
            start <= cs@.len(),
        decreases cs@.len() - start,
    {
        start += 1;
    }
    let mut end: usize = cs.len();
    while end > start && ws_exec(cs[end - 1])
        invariant
            start <= end <= cs@.len(),
        decreases end,
    {
        end -= 1;
    }
    let mut out: Vec<char> = Vec::new();
    let mut i = start;
    proof {
        assert(start < cs@.len() ==> !is_ws(cs@[start as int]) || start >= end);
    }
    while i < end
        invariant
            start <= i <= end <= cs@.len(),
            out@ == cs@.subrange(start as int, i as int),
            start < end ==> !is_ws(cs@[start as int]),
            start < end ==> !is_ws(cs@[end - 1]),
        decreases end - i,
    {
        out.push(cs[i]);
        proof {
            assert(out@ =~= cs@.subrange(start as int, i + 1));
        }
        i += 1;
    }
    out
}

fn string_of_chars(cs: &Vec<char>) -> (s: String)
    ensures
        s@ == cs@,
{
    let ghost target = cs@;
    let mut s = String::new();
    let mut i: usize = 0;
    while i < cs.len()
        invariant
            i <= cs@.len(),
            cs@ == target,
            s@ == target.take(i as int),
        decreases cs@.len() - i,
    {
        push_char(&mut s, cs[i]);
        proof {
            assert(s@ =~= target.take(i + 1));
        }
        i += 1;
    }
    proof {
        assert(target.take(target.len() as int) =~= target);
    }
    s
}

/// Relies on String::push: appends one character.
#[verifier::external_body]
fn push_char(s: &mut String, c: char)
    ensures
        final(s)@ == old(s)@.push(c),
{
    s.push(c)
}

fn chars_of_str(text: &str) -> (cs: Vec<char>)
    ensures
        cs@ == text@,
{
    let n = text.unicode_len();
    let mut cs: Vec<char> = Vec::new();
    let mut j: usize = 0;
    while j < n
        invariant
            j <= n,
            n == text@.len(),
            cs@ == text@.take(j as int),
        decreases n - j,
    {
        cs.push(text.get_char(j));
        j += 1;
    }
    proof {
        assert(text@.take(n as int) =~= text@);
    }
    cs
}

fn lit_chars(s: &str) -> (cs: Vec<char>)
    ensures
        cs@ == s@,
{
    chars_of_str(s)
}

/// Clean text for natural speech: strip markdown, normalize
/// whitespace and punctuation spacing, and widen pauses.  A
/// non-empty input yields a non-empty result: when everything is
/// stripped away, the input is returned unchanged.
pub fn clean_text_for_tts(text: &str) -> (cleaned: String)
    ensures
        text@.len() > 0 ==> cleaned@.len() > 0,
{
    let mut cs = chars_of_str(text);
    cs = strip_code_fences(cs);
    cs = strip_inline_code(cs);
    cs = strip_links(cs);
    cs = remove_char(&cs, '*');
    cs = remove_char(&cs, '_');
    cs = remove_pairs(cs, '~');
    cs = remove_char(&cs, '#');
    cs = strip_list_markers(cs);
    proof {
        reveal_strlit(" asterisk ");
        reveal_strlit(" asterisks ");
        reveal_strlit("Asterisk ");
        reveal_strlit("Asterisks ");
        reveal_strlit(" ");
        reveal_strlit("");
    }
    cs = replace_all(cs, &lit_chars(" asterisk "), &lit_chars(" "));
    cs = replace_all(cs, &lit_chars(" asterisks "), &lit_chars(" "));
    cs = replace_all(cs, &lit_chars("Asterisk "), &lit_chars(""));
    cs = replace_all(cs, &lit_chars("Asterisks "), &lit_chars(""));
    cs = collapse_whitespace(cs);
    cs = drop_space_before_punct(cs);
    cs = add_pause_hints(cs);
    cs = cap_spaces(cs);
    cs = trim_chars(cs);
    if cs.len() == 0 {
        return text.to_owned();
    }
    string_of_chars(&cs)
}

} // verus!
