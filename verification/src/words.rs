//! Lines and words of a text, and texts within texts.
use vstd::prelude::*;

use crate::text::{
    chars_of, dec, decimal, law_split_at_a_separator, lemma_split_nonempty, lemma_split_single,
    push_text, split_on, split_text, text_of, views,
};

verus! {

// ---------------------------------------------------------------------------
// White space and words
// ---------------------------------------------------------------------------

/// Whether the character is white space in Unicode.
pub open spec fn is_space(c: char) -> bool {
    let n = c as u32;
    9 <= n <= 13 || n == 32 || n == 0x85 || n == 0xa0 || n == 0x1680 || 0x2000 <= n <= 0x200a || n
        == 0x2028 || n == 0x2029 || n == 0x202f || n == 0x205f || n == 0x3000
}

/// Whether there is nothing but white space.
pub open spec fn blank(s: Seq<char>) -> bool {
    forall|i: int| 0 <= i < s.len() ==> is_space(#[trigger] s[i])
}

/// The words of a text: its longest stretches without white space.
pub open spec fn words(s: Seq<char>) -> Seq<Seq<char>>
    decreases s.len(),
{
    if s.len() == 0 {
        seq![]
    } else {
        let before = words(s.drop_last());
        if is_space(s.last()) {
            before
        } else if s.len() >= 2 && !is_space(s[s.len() - 2]) {
            before.drop_last().push(before.last().push(s.last()))
        } else {
            before.push(seq![s.last()])
        }
    }
}

/// The text without white space at its start.
pub open spec fn trimmed_start(s: Seq<char>) -> Seq<char>
    decreases s.len(),
{
    if s.len() > 0 && is_space(s[0]) {
        trimmed_start(s.skip(1))
    } else {
        s
    }
}

/// The text without white space at its end.
pub open spec fn trimmed_end(s: Seq<char>) -> Seq<char>
    decreases s.len(),
{
    if s.len() > 0 && is_space(s.last()) {
        trimmed_end(s.drop_last())
    } else {
        s
    }
}

/// The text without white space at its start and its end.
pub open spec fn trimmed(s: Seq<char>) -> Seq<char> {
    trimmed_end(trimmed_start(s))
}

/// Whether the character is white space.
pub fn is_space_char(c: char) -> (r: bool)
    ensures
        r == is_space(c),
{
    let n: u32 = c as u32;
    9 <= n && n <= 13 || n == 32 || n == 0x85 || n == 0xa0 || n == 0x1680 || 0x2000 <= n && n
        <= 0x200a || n == 0x2028 || n == 0x2029 || n == 0x202f || n == 0x205f || n == 0x3000
}

/// Whether there is nothing but white space.
pub fn is_blank(s: &str) -> (r: bool)
    ensures
        r == blank(s@),
{
    let cs = chars_of(s);
    let mut i: usize = 0;
    while i < cs.len()
        invariant
            i <= cs.len(),
            cs@ == s@,
            forall|j: int| 0 <= j < i ==> is_space(#[trigger] cs@[j]),
        decreases cs.len() - i,
    {
        if !is_space_char(cs[i]) {
            return false;
        }
        i += 1;
    }
    true
}

/// The words of a text.
pub fn words_of(s: &str) -> (r: Vec<String>)
    ensures
        views(r@) == words(s@),
{
    let cs = chars_of(s);
    let mut out: Vec<String> = Vec::new();
    let mut cur = String::new();
    let mut in_word = false;
    let mut i: usize = 0;
    assert(views(out@) =~= words(cs@.take(0)));
    while i < cs.len()
        invariant
            i <= cs.len(),
            cs@ == s@,
            in_word == (i > 0 && !is_space(cs@[i - 1])),
            in_word ==> words(cs@.take(i as int)) == views(out@).push(cur@),
            !in_word ==> words(cs@.take(i as int)) == views(out@) && cur@.len() == 0,
        decreases cs.len() - i,
    {
        let c = cs[i];
        let ghost longer = cs@.take(i + 1);
        assert(longer.drop_last() =~= cs@.take(i as int));
        if is_space_char(c) {
            if in_word {
                push_text(&mut out, cur);
                cur = String::new();
            }
            in_word = false;
        } else {
            let ghost old_cur = cur@;
            cur.push(c);
            assert(!in_word ==> cur@ =~= seq![c]);
            assert(in_word ==> views(out@).push(old_cur).drop_last() =~= views(out@));
            in_word = true;
        }
        i += 1;
    }
    assert(cs@.take(i as int) =~= s@);
    if in_word {
        push_text(&mut out, cur);
    }
    out
}

/// The text without white space at its start and its end.
pub fn trim_text(s: &str) -> (r: String)
    ensures
        r@ == trimmed(s@),
{
    let cs = chars_of(s);
    let mut a: usize = 0;
    assert(cs@.skip(0) =~= s@);
    while a < cs.len() && is_space_char(cs[a])
        invariant
            a <= cs.len(),
            cs@ == s@,
            trimmed_start(s@) == trimmed_start(cs@.skip(a as int)),
        decreases cs.len() - a,
    {
        assert(cs@.skip(a as int).skip(1) =~= cs@.skip(a + 1));
        a += 1;
    }
    let ghost t = cs@.skip(a as int);
    assert(trimmed_start(s@) == t);
    let mut b: usize = cs.len();
    assert(cs@.subrange(a as int, b as int) =~= t);
    while b > a && is_space_char(cs[b - 1])
        invariant
            a <= b <= cs.len(),
            trimmed_end(t) == trimmed_end(cs@.subrange(a as int, b as int)),
        decreases b,
    {
        assert(cs@.subrange(a as int, b as int).drop_last() =~= cs@.subrange(a as int, b - 1));
        b -= 1;
    }
    text_of(&cs, a, b)
}

// ---------------------------------------------------------------------------
// Lines
// ---------------------------------------------------------------------------

/// A line without the carriage return at its end.
pub open spec fn without_cr(s: Seq<char>) -> Seq<char> {
    if s.len() > 0 && s.last() == '\r' {
        s.drop_last()
    } else {
        s
    }
}

/// The lines of a text. Each ends in a line feed, before which a carriage return may
/// stand; the last one may lack it.
pub open spec fn lines(s: Seq<char>) -> Seq<Seq<char>> {
    let parts = split_on(s, '\n');
    let ended = parts.drop_last().map_values(|p: Seq<char>| without_cr(p));
    if parts.last().len() == 0 {
        ended
    } else {
        ended.push(parts.last())
    }
}

/// The lines of a text.
pub fn lines_of(s: &str) -> (r: Vec<String>)
    ensures
        views(r@) == lines(s@),
{
    let parts = split_text(s, '\n');
    let ghost all = split_on(s@, '\n');
    proof {
        lemma_split_nonempty(s@, '\n');
        assert(views(parts@).len() == all.len());
    }
    let ghost ended = all.drop_last().map_values(|p: Seq<char>| without_cr(p));
    let n: usize = parts.len() - 1;
    let mut out: Vec<String> = Vec::new();
    let mut i: usize = 0;
    assert(views(out@) =~= ended.take(0));
    while i < n
        invariant
            i <= n,
            n == parts.len() - 1,
            views(parts@) == all,
            ended == all.drop_last().map_values(|p: Seq<char>| without_cr(p)),
            views(out@) == ended.take(i as int),
        decreases n - i,
    {
        let cs = chars_of(parts[i].as_str());
        assert(cs@ == all[i as int]);
        let mut end: usize = cs.len();
        if end > 0 && cs[end - 1] == '\r' {
            end -= 1;
        }
        let line = text_of(&cs, 0, end);
        assert(line@ =~= without_cr(cs@));
        push_text(&mut out, line);
        i += 1;
        assert(views(out@) =~= ended.take(i as int));
    }
    assert(ended.take(n as int) =~= ended);
    let last = chars_of(parts[n].as_str());
    assert(last@ == all.last());
    if last.len() > 0 {
        let line = text_of(&last, 0, last.len());
        assert(line@ =~= all.last());
        push_text(&mut out, line);
    }
    out
}

// ---------------------------------------------------------------------------
// Texts within texts
// ---------------------------------------------------------------------------

/// Whether `p` stands in `s` at `i`.
pub open spec fn occurs_at(s: Seq<char>, p: Seq<char>, i: int) -> bool {
    0 <= i && i + p.len() <= s.len() && s.subrange(i, i + p.len()) == p
}

/// Whether `p` stands somewhere in `s`.
pub open spec fn occurs_in(s: Seq<char>, p: Seq<char>) -> bool {
    exists|i: int| occurs_at(s, p, i)
}

/// Whether `s` starts with `p`.
pub open spec fn starts_with(s: Seq<char>, p: Seq<char>) -> bool {
    occurs_at(s, p, 0)
}

fn found_at(cs: &Vec<char>, p: &Vec<char>, i: usize) -> (r: bool)
    requires
        i <= cs.len(),
    ensures
        r == occurs_at(cs@, p@, i as int),
{
    if p.len() > cs.len() - i {
        return false;
    }
    let mut j: usize = 0;
    while j < p.len()
        invariant
            j <= p.len(),
            i + p.len() <= cs.len(),
            forall|k: int| 0 <= k < j ==> cs@[i + k] == #[trigger] p@[k],
        decreases p.len() - j,
    {
        if cs[i + j] != p[j] {
            assert(cs@.subrange(i as int, i + p.len())[j as int] != p@[j as int]);
            return false;
        }
        j += 1;
    }
    assert(cs@.subrange(i as int, i + p.len()) =~= p@);
    true
}

/// Whether `p` stands somewhere in `s`.
pub fn has_text(s: &str, p: &str) -> (r: bool)
    ensures
        r == occurs_in(s@, p@),
{
    let cs = chars_of(s);
    let ps = chars_of(p);
    let mut i: usize = 0;
    while i < cs.len()
        invariant
            i <= cs.len(),
            cs@ == s@,
            ps@ == p@,
            forall|k: int| 0 <= k < i ==> !occurs_at(s@, p@, k),
        decreases cs.len() - i,
    {
        if found_at(&cs, &ps, i) {
            return true;
        }
        i += 1;
    }
    found_at(&cs, &ps, i)
}

/// Whether `s` starts with `p`.
pub fn starts_with_text(s: &str, p: &str) -> (r: bool)
    ensures
        r == starts_with(s@, p@),
{
    found_at(&chars_of(s), &chars_of(p), 0)
}

// ---------------------------------------------------------------------------
// Lists as text
// ---------------------------------------------------------------------------

/// The texts one after the other, with a separator between them.
pub open spec fn joined(parts: Seq<Seq<char>>, sep: Seq<char>) -> Seq<char>
    decreases parts.len(),
{
    if parts.len() == 0 {
        seq![]
    } else if parts.len() == 1 {
        parts[0]
    } else {
        joined(parts.drop_last(), sep) + sep + parts.last()
    }
}

/// The texts one after the other, with a separator between them.
pub fn join_texts(parts: &Vec<String>, sep: &str) -> (r: String)
    ensures
        r@ == joined(views(parts@), sep@),
{
    let mut s = String::new();
    let ghost all = views(parts@);
    let mut i: usize = 0;
    assert(s@ =~= joined(all.take(0), sep@));
    while i < parts.len()
        invariant
            i <= parts.len(),
            all == views(parts@),
            s@ == joined(all.take(i as int), sep@),
        decreases parts.len() - i,
    {
        assert(all.take(i + 1).drop_last() =~= all.take(i as int));
        assert(i == 0 ==> s@ =~= seq![]);
        if i > 0 {
            s.append(sep);
        }
        s.append(parts[i].as_str());
        assert(i == 0 ==> s@ =~= all[0]);
        i += 1;
    }
    assert(all.take(i as int) =~= all);
    s
}

/// The texts of numbers.
pub open spec fn number_texts(v: Seq<u32>) -> Seq<Seq<char>> {
    v.map_values(|n: u32| dec(n as nat))
}

/// A list of numbers in square brackets.
pub open spec fn list_text(v: Seq<u32>) -> Seq<char> {
    "["@ + joined(number_texts(v), ", "@) + "]"@
}

/// A list of numbers in square brackets.
pub fn list_to_text(v: &Vec<u32>) -> (r: String)
    ensures
        r@ == list_text(v@),
{
    let mut parts: Vec<String> = Vec::new();
    let ghost all = number_texts(v@);
    let mut i: usize = 0;
    assert(views(parts@) =~= all.take(0));
    while i < v.len()
        invariant
            i <= v.len(),
            all == number_texts(v@),
            views(parts@) == all.take(i as int),
        decreases v.len() - i,
    {
        push_text(&mut parts, decimal(v[i] as u64));
        i += 1;
        assert(views(parts@) =~= all.take(i as int));
    }
    assert(all.take(i as int) =~= all);
    let mut s = "[".to_owned();
    s.append(join_texts(&parts, ", ").as_str());
    s.append("]");
    s
}

/// Ports as numbers.
pub open spec fn widened(v: Seq<u16>) -> Seq<u32> {
    v.map_values(|p: u16| p as u32)
}

/// Ports as numbers.
pub fn widen(v: &Vec<u16>) -> (r: Vec<u32>)
    ensures
        r@ == widened(v@),
{
    let mut out: Vec<u32> = Vec::new();
    let mut i: usize = 0;
    while i < v.len()
        invariant
            i <= v.len(),
            out@ == widened(v@).take(i as int),
        decreases v.len() - i,
    {
        out.push(v[i] as u32);
        i += 1;
        assert(out@ =~= widened(v@).take(i as int));
    }
    assert(out@ =~= widened(v@));
    out
}

// ---------------------------------------------------------------------------
// Bytes and case
// ---------------------------------------------------------------------------

/// How many bytes a character takes in UTF-8.
pub open spec fn utf8_len(c: char) -> nat {
    let n = c as u32;
    if n < 0x80 {
        1
    } else if n < 0x800 {
        2
    } else if n < 0x1_0000 {
        3
    } else {
        4
    }
}

/// How many bytes a text takes in UTF-8.
pub open spec fn byte_len(s: Seq<char>) -> nat
    decreases s.len(),
{
    if s.len() == 0 {
        0
    } else {
        byte_len(s.drop_last()) + utf8_len(s.last())
    }
}

/// A text takes at least as many bytes as it has characters.
pub proof fn lemma_byte_len(s: Seq<char>, k: int)
    requires
        0 <= k <= s.len(),
    ensures
        byte_len(s) >= byte_len(s.take(k)) + (s.len() - k),
    decreases s.len() - k,
{
    if k < s.len() {
        lemma_byte_len(s, k + 1);
        assert(s.take(k + 1).drop_last() =~= s.take(k));
    } else {
        assert(s.take(k) =~= s);
    }
}

/// Whether a text takes exactly `n` bytes in UTF-8.
pub fn has_byte_len(s: &str, n: u64) -> (r: bool)
    ensures
        r == (byte_len(s@) == n),
{
    let cs = chars_of(s);
    let mut left: u64 = n;
    let mut i: usize = 0;
    assert(cs@.take(0) =~= seq![]);
    while i < cs.len()
        invariant
            i <= cs.len(),
            cs@ == s@,
            left + byte_len(cs@.take(i as int)) == n,
        decreases cs.len() - i,
    {
        let c: u32 = cs[i] as u32;
        let width: u64 = if c < 0x80 {
            1
        } else if c < 0x800 {
            2
        } else if c < 0x1_0000 {
            3
        } else {
            4
        };
        proof {
            assert(cs@.take(i + 1).drop_last() =~= cs@.take(i as int));
            lemma_byte_len(cs@, i + 1);
        }
        if width > left {
            return false;
        }
        left -= width;
        i += 1;
    }
    assert(cs@.take(i as int) =~= cs@);
    left == 0
}

/// The text in lower case.
pub uninterp spec fn lowercase(s: Seq<char>) -> Seq<char>;

/// The letter in lower case, for a letter of ASCII.
pub open spec fn ascii_lower(c: char) -> char {
    if 'A' <= c <= 'Z' {
        ((c as u32) + 32) as char
    } else {
        c
    }
}

/// `str::to_lowercase`: the text in lower case. Of ASCII it changes the letters alone.
#[verifier::external_body]
pub(crate) fn to_lower(s: &str) -> (r: String)
    ensures
        r@ == lowercase(s@),
        (forall|i: int| 0 <= i < s@.len() ==> (#[trigger] s@[i] as u32) < 128) ==> r@
            == s@.map_values(|c: char| ascii_lower(c)),
{
    s.to_lowercase()
}

// ---------------------------------------------------------------------------
// Laws
// ---------------------------------------------------------------------------

proof fn lemma_trimmed_start(s: Seq<char>)
    ensures
        trimmed_start(s).len() > 0 ==> !is_space(trimmed_start(s)[0]),
    decreases s.len(),
{
    if s.len() > 0 && is_space(s[0]) {
        lemma_trimmed_start(s.skip(1));
    }
}

proof fn lemma_trimmed_end(s: Seq<char>)
    ensures
        trimmed_end(s).len() > 0 ==> !is_space(trimmed_end(s).last()),
        trimmed_end(s).len() <= s.len(),
        trimmed_end(s).len() > 0 ==> trimmed_end(s)[0] == s[0],
    decreases s.len(),
{
    if s.len() > 0 && is_space(s.last()) {
        lemma_trimmed_end(s.drop_last());
    }
}

/// A trimmed text has no white space at its start or its end, and trimming it again
/// changes nothing.
pub proof fn law_trimming_is_final(s: Seq<char>)
    ensures
        trimmed(s).len() > 0 ==> !is_space(trimmed(s)[0]) && !is_space(trimmed(s).last()),
        trimmed(trimmed(s)) == trimmed(s),
{
    lemma_trimmed_start(s);
    lemma_trimmed_end(trimmed_start(s));
}

/// White space is the tab, the line feed, the vertical tab, the form feed, the carriage
/// return, the space, and the other such characters of Unicode; nothing else is.
pub proof fn law_white_space(c: char)
    ensures
        is_space(c) <==> (c == '\t' || c == '\n' || c == '\u{b}' || c == '\u{c}' || c == '\r' || c
            == ' ' || c == '\u{85}' || c == '\u{a0}' || c == '\u{1680}' || ('\u{2000}' <= c
            <= '\u{200a}') || c == '\u{2028}' || c == '\u{2029}' || c == '\u{202f}' || c
            == '\u{205f}' || c == '\u{3000}'),
{
}

proof fn lemma_word_open(s: Seq<char>)
    requires
        s.len() > 0,
        !is_space(s.last()),
    ensures
        words(s).len() > 0,
{
}

/// White space parts the words of a text: those before it come first, and then those after
/// it.
pub proof fn law_space_parts_words(a: Seq<char>, space: char, b: Seq<char>)
    requires
        is_space(space),
    ensures
        words(a.push(space) + b) == words(a) + words(b),
    decreases b.len(),
{
    let s = a.push(space) + b;
    if b.len() == 0 {
        assert(s =~= a.push(space));
        assert(s.drop_last() =~= a);
        assert(words(a) + words(b) =~= words(a));
    } else {
        let front = b.drop_last();
        law_space_parts_words(a, space, front);
        assert(s.drop_last() =~= a.push(space) + front);
        assert(s.last() == b.last());
        if b.len() >= 2 {
            assert(s[s.len() - 2] == b[b.len() - 2]);
            assert(front.last() == b[b.len() - 2]);
            if !is_space(front.last()) {
                lemma_word_open(front);
            }
        } else {
            assert(s[s.len() - 2] == space);
        }
        assert(words(s) =~= words(a) + words(b));
    }
}

/// A text without white space is one word, unless it is empty.
pub proof fn law_one_word(w: Seq<char>)
    requires
        forall|i: int| 0 <= i < w.len() ==> !is_space(#[trigger] w[i]),
    ensures
        w.len() == 0 ==> words(w).len() == 0,
        w.len() > 0 ==> words(w) == seq![w],
    decreases w.len(),
{
    if w.len() > 1 {
        let front = w.drop_last();
        assert forall|i: int| 0 <= i < front.len() implies !is_space(#[trigger] front[i]) by {
            assert(front[i] == w[i]);
        }
        law_one_word(front);
        assert(front.push(w.last()) =~= w);
        assert(seq![front].drop_last() =~= Seq::<Seq<char>>::empty());
        assert(words(w) =~= seq![w]);
    } else if w.len() == 1 {
        assert(words(w.drop_last()).len() == 0);
        assert(w =~= seq![w.last()]);
        assert(words(w) =~= seq![w]);
    }
}

proof fn lemma_start_cut(s: Seq<char>) -> (k: int)
    ensures
        0 <= k <= s.len(),
        blank(s.take(k)),
        trimmed_start(s) == s.skip(k),
    decreases s.len(),
{
    if s.len() > 0 && is_space(s[0]) {
        let rest = s.skip(1);
        let k = lemma_start_cut(rest);
        assert(rest.skip(k) =~= s.skip(k + 1));
        assert forall|i: int| 0 <= i < k + 1 implies is_space(#[trigger] s.take(k + 1)[i]) by {
            if i > 0 {
                assert(rest.take(k)[i - 1] == s[i]);
            }
        }
        k + 1
    } else {
        assert(s.skip(0) =~= s);
        0
    }
}

proof fn lemma_end_cut(s: Seq<char>) -> (k: int)
    ensures
        0 <= k <= s.len(),
        blank(s.skip(k)),
        trimmed_end(s) == s.take(k),
    decreases s.len(),
{
    if s.len() > 0 && is_space(s.last()) {
        let front = s.drop_last();
        let k = lemma_end_cut(front);
        assert(front.take(k) =~= s.take(k));
        assert forall|i: int| 0 <= i < s.len() - k implies is_space(#[trigger] s.skip(k)[i]) by {
            if i < front.len() - k {
                assert(front.skip(k)[i] == s.skip(k)[i]);
            }
        }
        k
    } else {
        assert(s.take(s.len() as int) =~= s);
        s.len() as int
    }
}

/// Trimming takes white space from both ends of a text, and nothing else.
pub proof fn law_trimming_cuts_white_space(s: Seq<char>)
    ensures
        exists|from: int, to: int|
            0 <= from <= to <= s.len() && blank(#[trigger] s.take(from)) && blank(
                #[trigger] s.skip(to),
            ) && trimmed(s) == s.subrange(from, to),
        trimmed(s).len() == 0 <==> blank(s),
{
    let k = lemma_start_cut(s);
    let t = s.skip(k);
    let l = lemma_end_cut(t);
    let end = k + l;
    assert(t.skip(l) =~= s.skip(end));
    assert(t.take(l) =~= s.subrange(k, end));
    assert(blank(s.take(k)) && blank(s.skip(end)));
    law_trimming_is_final(s);
    if trimmed(s).len() == 0 {
        assert forall|i: int| 0 <= i < s.len() implies is_space(#[trigger] s[i]) by {
            if i < k {
                assert(s.take(k)[i] == s[i]);
            } else {
                assert(s.skip(end)[i - end] == s[i]);
            }
        }
    }
    if trimmed(s).len() > 0 {
        assert(trimmed(s)[0] == s[k]);
    }
}

/// The first line of a text ends before the first line feed, and the rest are the lines of
/// what follows; a carriage return just before the line feed belongs to neither. What
/// follows the last line feed is a line as it stands, unless it is empty.
pub proof fn law_lines_follow(line: Seq<char>, rest: Seq<char>)
    requires
        !line.contains('\n'),
    ensures
        lines(line.push('\n') + rest) == seq![
            if line.len() > 0 && line[line.len() - 1] == '\r' {
                line.take(line.len() - 1)
            } else {
                line
            },
        ] + lines(rest),
        line.len() > 0 ==> lines(line) == seq![line],
        lines(Seq::empty()) == Seq::<Seq<char>>::empty(),
{
    let p = split_on(rest, '\n');
    lemma_split_nonempty(rest, '\n');
    lemma_split_single(line, '\n');
    law_split_at_a_separator(line, '\n', rest);
    let all = split_on(line.push('\n') + rest, '\n');
    assert(all =~= seq![line] + p);
    assert(all.last() == p.last());
    assert(all.drop_last() =~= seq![line] + p.drop_last());
    let f = |x: Seq<char>| without_cr(x);
    assert(line.len() > 0 && line[line.len() - 1] == '\r' ==> line.drop_last() =~= line.take(
        line.len() - 1,
    ));
    assert(all.drop_last().map_values(f) =~= seq![without_cr(line)] + p.drop_last().map_values(f));
    assert(lines(line.push('\n') + rest) =~= seq![without_cr(line)] + lines(rest));
    assert(seq![line].drop_last().map_values(f) =~= Seq::<Seq<char>>::empty());
    if line.len() > 0 {
        assert(lines(line) =~= seq![line]);
    }
    let none = split_on(Seq::<char>::empty(), '\n');
    assert(none.drop_last().map_values(f) =~= Seq::<Seq<char>>::empty());
    assert(lines(Seq::empty()) =~= Seq::<Seq<char>>::empty());
}

/// A text occurs in another exactly if the other is something, the text, and something.
pub proof fn law_occurrence(s: Seq<char>, p: Seq<char>, a: Seq<char>, b: Seq<char>)
    ensures
        s == a + p + b ==> occurs_in(s, p),
        s == p + b ==> starts_with(s, p),
        occurs_in(s, p) ==> exists|k: int| 0 <= k <= s.len() - p.len() && s == #[trigger] s.take(k)
            + p + s.skip(k + p.len()),
        starts_with(s, p) ==> s == p + s.skip(p.len() as int),
{
    if s == a + p + b {
        let i = a.len() as int;
        assert(s.subrange(i, i + p.len()) =~= p);
        assert(occurs_at(s, p, i));
    }
    if s == p + b {
        assert(s.subrange(0, p.len() as int) =~= p);
    }
    if occurs_in(s, p) {
        let k = choose|k: int| occurs_at(s, p, k);
        assert(s =~= s.take(k) + p + s.skip(k + p.len())) by {
            assert forall|j: int| 0 <= j < s.len() implies s[j] == (s.take(k) + p + s.skip(
                k + p.len(),
            ))[j] by {
                if k <= j < k + p.len() {
                    assert(s.subrange(k, k + p.len())[j - k] == s[j]);
                }
            }
        }
    }
    if starts_with(s, p) {
        assert forall|j: int| 0 <= j < s.len() implies s[j] == (p + s.skip(p.len() as int))[j] by {
            if j < p.len() {
                assert(s.subrange(0, p.len() as int)[j] == s[j]);
            }
        }
        assert(s =~= p + s.skip(p.len() as int));
    }
}

/// Joined texts stand one after the other with the separator between them: one alone is
/// itself, and two joined rows are joined by one separator more.
pub proof fn law_joining(a: Seq<Seq<char>>, b: Seq<Seq<char>>, sep: Seq<char>)
    requires
        a.len() > 0,
        b.len() > 0,
    ensures
        joined(a + b, sep) == joined(a, sep) + sep + joined(b, sep),
        a.len() == 1 ==> joined(a, sep) == a[0],
        joined(Seq::empty(), sep).len() == 0,
    decreases b.len(),
{
    let all = a + b;
    if b.len() == 1 {
        assert(all.drop_last() =~= a);
        assert(all.last() == b[0]);
    } else {
        let front = b.drop_last();
        law_joining(a, front, sep);
        assert(all.drop_last() =~= a + front);
        assert(all.last() == b.last());
        assert(joined(all, sep) =~= joined(a, sep) + sep + joined(b, sep));
    }
}

/// The text of a list of numbers stands in square brackets, with a comma and a space between
/// the numbers.
pub proof fn law_list_text(v: Seq<u32>, n: u32)
    ensures
        list_text(Seq::empty()) == "[]"@,
        list_text(seq![n]) == "["@ + dec(n as nat) + "]"@,
        v.len() > 0 ==> list_text(v.push(n)) == list_text(v).drop_last() + ", "@ + dec(n as nat)
            + "]"@,
{
    reveal_strlit("[]");
    reveal_strlit("[");
    reveal_strlit("]");
    let none = number_texts(Seq::<u32>::empty());
    assert(none =~= Seq::<Seq<char>>::empty());
    assert(list_text(Seq::empty()) =~= "[]"@);
    assert(number_texts(seq![n]) =~= seq![dec(n as nat)]);
    assert(number_texts(v.push(n)) =~= number_texts(v).push(dec(n as nat)));
    if v.len() > 0 {
        assert(number_texts(v.push(n)).drop_last() =~= number_texts(v));
        assert(list_text(v).drop_last() =~= "["@ + joined(number_texts(v), ", "@));
        assert(list_text(v.push(n)) =~= list_text(v).drop_last() + ", "@ + dec(n as nat) + "]"@);
    }
}

/// The bytes of a text add up; a character of ASCII has one, one below 800 has two, one
/// below 10000, both hexadecimal, has three, and any other four.
pub proof fn law_bytes_add_up(a: Seq<char>, c: char)
    ensures
        byte_len(Seq::empty()) == 0,
        c <= '\u{7f}' ==> byte_len(a.push(c)) == byte_len(a) + 1,
        '\u{80}' <= c <= '\u{7ff}' ==> byte_len(a.push(c)) == byte_len(a) + 2,
        '\u{800}' <= c <= '\u{ffff}' ==> byte_len(a.push(c)) == byte_len(a) + 3,
        c >= '\u{10000}' ==> byte_len(a.push(c)) == byte_len(a) + 4,
{
    assert(a.push(c).drop_last() =~= a);
}

} // verus!
