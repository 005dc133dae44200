//! Text helpers: numerals, splitting and searching, each tied to a sequence of
//! characters.
use vstd::prelude::*;

verus! {

/// `String::push` of the standard library appends one character to the string.
pub assume_specification[ String::push ](s: &mut String, c: char)
    ensures
        final(s)@ == old(s)@.push(c),
;

/// The texts held by a list of strings.
pub open spec fn views(v: Seq<String>) -> Seq<Seq<char>> {
    v.map_values(|s: String| s@)
}

// ---------------------------------------------------------------------------
// Numerals
// ---------------------------------------------------------------------------

/// The character of a digit below ten, or of a hexadecimal digit in lower case.
pub open spec fn digit_char(d: nat) -> char {
    if d < 10 {
        (48 + d) as char
    } else {
        (87 + d) as char
    }
}

/// The character of a hexadecimal digit in upper case.
pub open spec fn upper_digit_char(d: nat) -> char {
    if d < 10 {
        (48 + d) as char
    } else {
        (55 + d) as char
    }
}

/// The decimal numeral of `n`, without leading zeros.
pub open spec fn dec(n: nat) -> Seq<char>
    decreases n,
{
    if n < 10 {
        seq![digit_char(n)]
    } else {
        dec(n / 10).push(digit_char(n % 10))
    }
}

/// The hexadecimal numeral of `n` in lower case, without leading zeros.
pub open spec fn hex(n: nat) -> Seq<char>
    decreases n,
{
    if n < 16 {
        seq![digit_char(n)]
    } else {
        hex(n / 16).push(digit_char(n % 16))
    }
}

/// Four hexadecimal digits in upper case.
pub open spec fn hex4_upper(n: nat) -> Seq<char> {
    seq![
        upper_digit_char(n / 4096 % 16),
        upper_digit_char(n / 256 % 16),
        upper_digit_char(n / 16 % 16),
        upper_digit_char(n % 16),
    ]
}

/// Two lower-case hexadecimal digits for each byte, in order.
pub open spec fn hex_bytes(bytes: Seq<u8>) -> Seq<char>
    decreases bytes.len(),
{
    if bytes.len() == 0 {
        seq![]
    } else {
        hex_bytes(bytes.drop_last()) + seq![
            digit_char(bytes.last() as nat / 16),
            digit_char(bytes.last() as nat % 16),
        ]
    }
}

/// Whether `c` is one of `0` to `9`.
pub open spec fn is_dec_digit(c: char) -> bool {
    '0' <= c <= '9'
}

/// Whether `c` is a hexadecimal digit, in either case.
pub open spec fn is_hex_digit(c: char) -> bool {
    '0' <= c <= '9' || 'a' <= c <= 'f' || 'A' <= c <= 'F'
}

/// The value of a hexadecimal (or decimal) digit.
pub open spec fn digit_value(c: char) -> nat {
    if '0' <= c <= '9' {
        (c as nat - 48) as nat
    } else if 'a' <= c <= 'f' {
        (c as nat - 87) as nat
    } else {
        (c as nat - 55) as nat
    }
}

/// The number that a sequence of digits denotes in the given base.
pub open spec fn numeral_value(s: Seq<char>, base: nat) -> nat
    decreases s.len(),
{
    if s.len() == 0 {
        0
    } else {
        numeral_value(s.drop_last(), base) * base + digit_value(s.last())
    }
}

/// Whether all characters are decimal digits.
pub open spec fn all_dec(s: Seq<char>) -> bool {
    forall|i: int| 0 <= i < s.len() ==> is_dec_digit(#[trigger] s[i])
}

/// Whether all characters are hexadecimal digits.
pub open spec fn all_hex(s: Seq<char>) -> bool {
    forall|i: int| 0 <= i < s.len() ==> is_hex_digit(#[trigger] s[i])
}

/// The text after one leading plus sign, if there is one.
pub open spec fn without_plus(s: Seq<char>) -> Seq<char> {
    if s.len() > 0 && s[0] == '+' {
        s.skip(1)
    } else {
        s
    }
}

/// What an unsigned integer type with the largest value `max` reads from `s`: one
/// optional plus sign, then one or more decimal digits whose value does not pass
/// `max`.
pub open spec fn unsigned_text(s: Seq<char>, max: nat) -> Option<nat> {
    let d = without_plus(s);
    if d.len() > 0 && all_dec(d) && numeral_value(d, 10) <= max {
        Some(numeral_value(d, 10))
    } else {
        None
    }
}

/// A decimal numeral holds digits only, starts with a zero only if it is `0`, and
/// denotes the number it was made from.
pub proof fn lemma_dec(n: nat)
    ensures
        dec(n).len() > 0,
        all_dec(dec(n)),
        numeral_value(dec(n), 10) == n,
        dec(n)[0] == '0' ==> n == 0,
        n < 10 ==> dec(n).len() == 1,
        n < 100 ==> dec(n).len() <= 2,
        n < 1000 ==> dec(n).len() <= 3,
    decreases n,
{
    reveal_with_fuel(numeral_value, 2);
    if n < 10 {
        assert(dec(n).drop_last() =~= Seq::<char>::empty());
    } else {
        lemma_dec(n / 10);
        assert(dec(n).drop_last() =~= dec(n / 10));
        assert(dec(n)[0] == dec(n / 10)[0]);
    }
}

/// A hexadecimal numeral holds hexadecimal digits only and denotes the number it was
/// made from; four digits are enough below 65536.
pub proof fn lemma_hex(n: nat)
    ensures
        hex(n).len() > 0,
        all_hex(hex(n)),
        numeral_value(hex(n), 16) == n,
        n < 16 ==> hex(n).len() == 1,
        n < 256 ==> hex(n).len() <= 2,
        n < 4096 ==> hex(n).len() <= 3,
        n < 65536 ==> hex(n).len() <= 4,
    decreases n,
{
    reveal_with_fuel(numeral_value, 2);
    if n < 16 {
        assert(hex(n).drop_last() =~= Seq::<char>::empty());
    } else {
        lemma_hex(n / 16);
        assert(hex(n).drop_last() =~= hex(n / 16));
    }
}

/// Leading digits of a numeral denote no more than the whole numeral.
pub proof fn lemma_numeral_prefix(s: Seq<char>, k: int, base: nat)
    requires
        0 <= k <= s.len(),
        base >= 1,
    ensures
        numeral_value(s.take(k), base) <= numeral_value(s, base),
    decreases s.len() - k,
{
    if k == s.len() {
        assert(s.take(k) =~= s);
    } else {
        lemma_numeral_prefix(s, k + 1, base);
        assert(s.take(k + 1).drop_last() =~= s.take(k));
        let v = numeral_value(s.take(k), base);
        assert(v <= v * base) by (nonlinear_arith)
            requires
                base >= 1,
                v >= 0,
        ;
    }
}

/// The decimal numeral of a number reads back as the number.
pub proof fn law_decimal_reads_back(n: nat, max: nat)
    requires
        n <= max,
    ensures
        unsigned_text(dec(n), max) == Some(n),
{
    lemma_dec(n);
    assert(is_dec_digit(dec(n)[0]));
}

/// The decimal numeral of `n`.
pub fn decimal(n: u64) -> (r: String)
    ensures
        r@ == dec(n as nat),
{
    wide_decimal(n as u128)
}

/// The decimal numeral of `n`.
pub fn wide_decimal(n: u128) -> (r: String)
    ensures
        r@ == dec(n as nat),
    decreases n,
{
    let d: u8 = (n % 10) as u8;
    let c: char = (48u8 + d) as char;
    if n < 10 {
        let mut s = String::new();
        s.push(c);
        s
    } else {
        let mut s = wide_decimal(n / 10);
        s.push(c);
        s
    }
}

/// A hexadecimal digit in lower case.
pub fn hex_digit(d: u8) -> (c: char)
    requires
        d < 16,
    ensures
        c == digit_char(d as nat),
{
    if d < 10 {
        (48u8 + d) as char
    } else {
        (87u8 + d) as char
    }
}

/// A hexadecimal digit in upper case.
pub fn upper_hex_digit(d: u8) -> (c: char)
    requires
        d < 16,
    ensures
        c == upper_digit_char(d as nat),
{
    if d < 10 {
        (48u8 + d) as char
    } else {
        (55u8 + d) as char
    }
}

/// The hexadecimal numeral of `n` in lower case.
pub fn hexadecimal(n: u16) -> (r: String)
    ensures
        r@ == hex(n as nat),
    decreases n,
{
    let c: char = hex_digit((n % 16) as u8);
    if n < 16 {
        let mut s = String::new();
        s.push(c);
        s
    } else {
        let mut s = hexadecimal(n / 16);
        s.push(c);
        s
    }
}

/// Appends four upper-case hexadecimal digits.
pub fn push_hex4_upper(s: &mut String, n: u16)
    ensures
        final(s)@ == old(s)@ + hex4_upper(n as nat),
{
    s.push(upper_hex_digit((n / 4096 % 16) as u8));
    s.push(upper_hex_digit((n / 256 % 16) as u8));
    s.push(upper_hex_digit((n / 16 % 16) as u8));
    s.push(upper_hex_digit((n % 16) as u8));
}

/// Two lower-case hexadecimal digits for each byte.
pub fn hex_of_bytes(bytes: &Vec<u8>) -> (r: String)
    ensures
        r@ == hex_bytes(bytes@),
{
    let mut s = String::new();
    let mut i: usize = 0;
    while i < bytes.len()
        invariant
            i <= bytes.len(),
            s@ == hex_bytes(bytes@.take(i as int)),
        decreases bytes.len() - i,
    {
        let b = bytes[i];
        s.push(hex_digit(b / 16));
        s.push(hex_digit(b % 16));
        i += 1;
        assert(bytes@.take(i as int).drop_last() =~= bytes@.take(i - 1));
    }
    assert(bytes@.take(i as int) =~= bytes@);
    s
}

/// The value of a digit in the given base, ten or sixteen.
pub fn digit_of(c: char, base: u64) -> (r: Option<u64>)
    requires
        base == 10 || base == 16,
    ensures
        match r {
            Some(d) => d == digit_value(c) && d < base && (if base == 10 {
                is_dec_digit(c)
            } else {
                is_hex_digit(c)
            }),
            None => if base == 10 {
                !is_dec_digit(c)
            } else {
                !is_hex_digit(c)
            },
        },
{
    if '0' <= c && c <= '9' {
        Some((c as u64) - 48)
    } else if base == 16 && 'a' <= c && c <= 'f' {
        Some((c as u64) - 87)
    } else if base == 16 && 'A' <= c && c <= 'F' {
        Some((c as u64) - 55)
    } else {
        None
    }
}

/// Reads an unsigned integer not larger than `max`, as the `parse` method of the
/// unsigned integer types does.
pub fn parse_unsigned(s: &str, max: u64) -> (r: Option<u64>)
    ensures
        match r {
            Some(n) => unsigned_text(s@, max as nat) == Some(n as nat),
            None => unsigned_text(s@, max as nat) is None,
        },
{
    let cs = chars_of(s);
    let mut i: usize = 0;
    if cs.len() > 0 && cs[0] == '+' {
        i = 1;
    }
    let ghost d = without_plus(s@);
    let ghost k = i as int;
    assert(d =~= s@.skip(k));
    if i >= cs.len() {
        return None;
    }
    let mut value: u64 = 0;
    while i < cs.len()
        invariant
            k <= i <= cs.len(),
            0 <= k <= 1,
            cs@ == s@,
            d == s@.skip(k),
            d == without_plus(s@),
            d.len() > 0,
            value <= max,
            value == numeral_value(d.take(i - k), 10),
            all_dec(d.take(i - k)),
        decreases cs.len() - i,
    {
        let ghost j = i - k;
        assert(d.take(j + 1).drop_last() =~= d.take(j));
        assert(d.take(j + 1).last() == d[j]);
        assert(d[j] == cs@[i as int]);
        match digit_of(cs[i], 10) {
            None => {
                assert(!all_dec(d));
                return None;
            },
            Some(v) => {
                if v > max || value > (max - v) / 10 {
                    proof {
                        lemma_numeral_prefix(d, j + 1, 10);
                    }
                    return None;
                }
                value = value * 10 + v;
                assert(all_dec(d.take(j + 1))) by {
                    assert forall|m: int| 0 <= m < j + 1 implies is_dec_digit(
                        #[trigger] d.take(j + 1)[m],
                    ) by {
                        if m < j {
                            assert(d.take(j)[m] == d.take(j + 1)[m]);
                        }
                    }
                }
            },
        }
        i += 1;
    }
    assert(d.take(i - k) =~= d);
    Some(value)
}

// ---------------------------------------------------------------------------
// Characters and equality
// ---------------------------------------------------------------------------

/// The characters of a text.
pub fn chars_of(s: &str) -> (r: Vec<char>)
    ensures
        r@ == s@,
{
    let mut out: Vec<char> = Vec::new();
    for c in it: s.chars()
        invariant
            out@ == s@.take(it.index()),
            it.seq() == s@,
    {
        out.push(c);
    }
    out
}

/// The characters from `from` up to but not `to`, as a string.
pub fn text_of(cs: &Vec<char>, from: usize, to: usize) -> (r: String)
    requires
        from <= to <= cs.len(),
    ensures
        r@ == cs@.subrange(from as int, to as int),
{
    let mut s = String::new();
    let mut i: usize = from;
    while i < to
        invariant
            from <= i <= to <= cs.len(),
            s@ == cs@.subrange(from as int, i as int),
        decreases to - i,
    {
        s.push(cs[i]);
        i += 1;
    }
    s
}

/// Whether two texts are the same.
pub fn same_text(a: &str, b: &str) -> (r: bool)
    ensures
        r == (a@ == b@),
{
    let x = chars_of(a);
    let y = chars_of(b);
    if x.len() != y.len() {
        return false;
    }
    let mut i: usize = 0;
    while i < x.len()
        invariant
            i <= x.len(),
            x.len() == y.len(),
            forall|j: int| 0 <= j < i ==> x@[j] == y@[j],
            x@ == a@,
            y@ == b@,
        decreases x.len() - i,
    {
        if x[i] != y[i] {
            return false;
        }
        i += 1;
    }
    assert(a@ =~= b@);
    true
}

/// Whether the character `c` occurs in the text.
pub fn contains_char(s: &str, c: char) -> (r: bool)
    ensures
        r == s@.contains(c),
{
    let cs = chars_of(s);
    let mut i: usize = 0;
    while i < cs.len()
        invariant
            i <= cs.len(),
            cs@ == s@,
            forall|j: int| 0 <= j < i ==> cs@[j] != c,
        decreases cs.len() - i,
    {
        if cs[i] == c {
            assert(s@[i as int] == c);
            return true;
        }
        i += 1;
    }
    false
}

/// Whether the text is one of those in the list.
pub fn contains_text(list: &Vec<String>, s: &str) -> (r: bool)
    ensures
        r == views(list@).contains(s@),
{
    let mut i: usize = 0;
    while i < list.len()
        invariant
            i <= list.len(),
            forall|j: int| 0 <= j < i ==> views(list@)[j] != s@,
        decreases list.len() - i,
    {
        if same_text(list[i].as_str(), s) {
            assert(views(list@)[i as int] == s@);
            return true;
        }
        i += 1;
    }
    false
}

// ---------------------------------------------------------------------------
// Splitting and joining
// ---------------------------------------------------------------------------

/// The pieces of `s` between the occurrences of `c`; there is always at least one.
pub open spec fn split_on(s: Seq<char>, c: char) -> Seq<Seq<char>>
    decreases s.len(),
{
    if s.len() == 0 {
        seq![Seq::<char>::empty()]
    } else {
        let before = split_on(s.drop_last(), c);
        if s.last() == c {
            before.push(Seq::<char>::empty())
        } else {
            before.drop_last().push(before.last().push(s.last()))
        }
    }
}

/// The pieces, one after the other, with `c` between them.
pub open spec fn join_on(parts: Seq<Seq<char>>, c: char) -> Seq<char>
    decreases parts.len(),
{
    if parts.len() == 0 {
        seq![]
    } else if parts.len() == 1 {
        parts[0]
    } else {
        join_on(parts.drop_last(), c).push(c) + parts.last()
    }
}

/// A text splits into at least one piece.
pub proof fn lemma_split_nonempty(s: Seq<char>, c: char)
    ensures
        split_on(s, c).len() >= 1,
    decreases s.len(),
{
    if s.len() > 0 {
        lemma_split_nonempty(s.drop_last(), c);
    }
}

/// A text that follows a separator and holds none is one more piece.
pub proof fn lemma_split_append(a: Seq<char>, c: char, p: Seq<char>)
    requires
        !p.contains(c),
    ensures
        split_on(a.push(c) + p, c) == split_on(a, c).push(p),
    decreases p.len(),
{
    let s = a.push(c) + p;
    if p.len() == 0 {
        assert(s =~= a.push(c));
        assert(s.drop_last() =~= a);
        assert(p =~= Seq::<char>::empty());
    } else {
        let q = p.drop_last();
        assert(!q.contains(c)) by {
            assert forall|i: int| 0 <= i < q.len() implies q[i] != c by {
                assert(p[i] == q[i]);
                assert(p.contains(p[i]));
            }
        }
        lemma_split_append(a, c, q);
        assert(s.drop_last() =~= a.push(c) + q);
        assert(s.last() == p.last());
        assert(p.contains(p.last()));
        let before = split_on(a.push(c) + q, c);
        assert(before.last() == q);
        assert(before.drop_last() =~= split_on(a, c));
        assert(q.push(p.last()) =~= p);
    }
}

/// A text without the separator is its own only piece.
pub proof fn lemma_split_single(p: Seq<char>, c: char)
    requires
        !p.contains(c),
    ensures
        split_on(p, c) == seq![p],
    decreases p.len(),
{
    if p.len() == 0 {
        assert(p =~= Seq::<char>::empty());
    } else {
        let q = p.drop_last();
        assert(!q.contains(c)) by {
            assert forall|i: int| 0 <= i < q.len() implies q[i] != c by {
                assert(p[i] == q[i]);
                assert(p.contains(p[i]));
            }
        }
        lemma_split_single(q, c);
        assert(p.contains(p.last()));
        assert(q.push(p.last()) =~= p);
        assert(seq![q].drop_last() =~= Seq::<Seq<char>>::empty());
        assert(Seq::<Seq<char>>::empty().push(p) =~= seq![p]);
    }
}

/// Splitting undoes joining, where no piece holds the separator.
pub proof fn lemma_split_join(parts: Seq<Seq<char>>, c: char)
    requires
        parts.len() >= 1,
        forall|i: int| 0 <= i < parts.len() ==> !(#[trigger] parts[i]).contains(c),
    ensures
        split_on(join_on(parts, c), c) == parts,
    decreases parts.len(),
{
    if parts.len() == 1 {
        lemma_split_single(parts[0], c);
        assert(parts =~= seq![parts[0]]);
    } else {
        let init = parts.drop_last();
        lemma_split_join(init, c);
        lemma_split_append(join_on(init, c), c, parts.last());
        assert(init.push(parts.last()) =~= parts);
    }
}

/// The pieces of a text between the occurrences of `c`.
pub fn split_text(s: &str, c: char) -> (r: Vec<String>)
    ensures
        views(r@) == split_on(s@, c),
{
    let cs = chars_of(s);
    let mut parts: Vec<String> = Vec::new();
    let mut cur = String::new();
    let mut i: usize = 0;
    assert(views(parts@).push(cur@) =~= split_on(s@.take(0), c));
    while i < cs.len()
        invariant
            i <= cs.len(),
            cs@ == s@,
            views(parts@).push(cur@) == split_on(s@.take(i as int), c),
        decreases cs.len() - i,
    {
        let ghost before = views(parts@).push(cur@);
        assert(before.drop_last() =~= views(parts@));
        assert(s@.take(i + 1).drop_last() =~= s@.take(i as int));
        if cs[i] == c {
            parts.push(cur);
            cur = String::new();
            assert(views(parts@) =~= before);
        } else {
            cur.push(cs[i]);
        }
        i += 1;
        assert(views(parts@).push(cur@) =~= split_on(s@.take(i as int), c));
    }
    assert(s@.take(i as int) =~= s@);
    let ghost before = views(parts@).push(cur@);
    parts.push(cur);
    assert(views(parts@) =~= before);
    parts
}

/// Whether a text is empty.
pub fn is_empty_text(s: &str) -> (r: bool)
    ensures
        r == (s@.len() == 0),
{
    chars_of(s).len() == 0
}

// ---------------------------------------------------------------------------
// Composed texts
// ---------------------------------------------------------------------------

/// The decimal text of a number.
pub open spec fn number_text(n: u64) -> Seq<char> {
    dec(n as nat)
}

/// The decimal text of a port.
pub open spec fn port_text(port: u16) -> Seq<char> {
    dec(port as nat)
}

/// A text with a number behind it.
pub fn with_number(label: &str, n: u64) -> (r: String)
    ensures
        r@ == label@ + dec(n as nat),
{
    let mut s = label.to_owned();
    s.append(decimal(n).as_str());
    s
}

/// A text with another behind it.
pub fn with_text(label: &str, t: &str) -> (r: String)
    ensures
        r@ == label@ + t@,
{
    let mut s = label.to_owned();
    s.append(t);
    s
}

/// A line of a log: when, in square brackets, and what.
pub open spec fn log_line(when: Seq<char>, what: Seq<char>) -> Seq<char> {
    "["@ + when + "] "@ + what
}

/// A line of a log: when, in square brackets, and what.
pub fn stamped_line(when: &str, what: &str) -> (r: String)
    ensures
        r@ == log_line(when@, what@),
{
    let mut s = "[".to_owned();
    s.append(when);
    s.append("] ");
    s.append(what);
    s
}

/// The views of a list to which a string is added.
pub proof fn lemma_views_push(v: Seq<String>, s: String)
    ensures
        views(v.push(s)) == views(v).push(s@),
{
    assert(views(v.push(s)) =~= views(v).push(s@));
}

/// Adds a string to a list of strings.
pub fn push_text(v: &mut Vec<String>, s: String)
    ensures
        views(final(v)@) == views(old(v)@).push(s@),
{
    proof {
        lemma_views_push(v@, s);
    }
    v.push(s);
}

/// A copy of a list of strings.
pub fn copy_texts(v: &Vec<String>) -> (r: Vec<String>)
    ensures
        views(r@) == views(v@),
{
    let mut out: Vec<String> = Vec::new();
    let mut i: usize = 0;
    assert(views(out@) =~= views(v@).take(0));
    while i < v.len()
        invariant
            i <= v.len(),
            views(out@) == views(v@).take(i as int),
        decreases v.len() - i,
    {
        push_text(&mut out, v[i].as_str().to_owned());
        i += 1;
        assert(views(out@) =~= views(v@).take(i as int));
    }
    assert(views(v@).take(i as int) =~= views(v@));
    out
}

// ---------------------------------------------------------------------------
// Laws
// ---------------------------------------------------------------------------

/// A text with a separator splits into the pieces before it and the pieces after it.
pub proof fn law_split_at_a_separator(a: Seq<char>, c: char, b: Seq<char>)
    ensures
        split_on(a.push(c) + b, c) == split_on(a, c) + split_on(b, c),
    decreases b.len(),
{
    let s = a.push(c) + b;
    if b.len() == 0 {
        assert(s =~= a.push(c));
        assert(s.drop_last() =~= a);
        assert(split_on(a, c) + split_on(b, c) =~= split_on(a, c).push(Seq::<char>::empty()));
    } else {
        let front = b.drop_last();
        law_split_at_a_separator(a, c, front);
        lemma_split_nonempty(front, c);
        assert(s.drop_last() =~= a.push(c) + front);
        assert(s.last() == b.last());
        assert(split_on(s, c) =~= split_on(a, c) + split_on(b, c));
    }
}

/// Joining undoes splitting: the pieces of a text, with the separator between them, are the
/// text. None of them holds the separator.
pub proof fn law_pieces_join_back(s: Seq<char>, c: char)
    ensures
        join_on(split_on(s, c), c) == s,
        forall|i: int| 0 <= i < split_on(s, c).len() ==> !(#[trigger] split_on(s, c)[i]).contains(c),
    decreases s.len(),
{
    let p = split_on(s, c);
    if s.len() > 0 {
        let front = s.drop_last();
        let before = split_on(front, c);
        law_pieces_join_back(front, c);
        lemma_split_nonempty(front, c);
        assert(front.push(s.last()) =~= s);
        if s.last() == c {
            assert(p.drop_last() =~= before);
            assert(join_on(p, c) =~= s);
        } else {
            assert(p.drop_last() =~= before.drop_last());
            assert forall|i: int| 0 <= i < p.len() implies !(#[trigger] p[i]).contains(c) by {
                if i < before.len() - 1 {
                    assert(p[i] == before[i]);
                } else {
                    assert(!before[i].contains(c));
                    let w = p[i];
                    assert forall|k: int| 0 <= k < w.len() implies w[k] != c by {
                        if k < w.len() - 1 {
                            assert(w[k] == before[i][k]);
                            assert(before[i].contains(before[i][k]));
                        }
                    }
                }
            }
            if before.len() == 1 {
                assert(join_on(p, c) =~= s);
            } else {
                assert(join_on(p, c) =~= join_on(before, c).push(s.last()));
            }
        }
    } else {
        assert(p[0] =~= Seq::<char>::empty());
        assert(join_on(p, c) =~= s);
    }
}

/// The numeral of a number ends in the digit of its units; before that stands the numeral of
/// its tens, if it has any.
pub proof fn law_decimal_digits(n: nat, units: nat)
    requires
        units < 10,
    ensures
        n > 0 ==> dec(10 * n + units) == dec(n).push((('0' as u32) + units) as char),
        dec(units) == seq![(('0' as u32) + units) as char],
{
    assert((10 * n + units) / 10 == n && (10 * n + units) % 10 == units);
}

/// A lower-case hexadecimal numeral ends in the digit of its units; before that stands the
/// numeral of the rest, if there is any.
pub proof fn law_hex_digits(n: nat, units: nat)
    requires
        units < 16,
    ensures
        n > 0 ==> hex(16 * n + units) == hex(n).push("0123456789abcdef"@[units as int]),
        hex(units) == seq!["0123456789abcdef"@[units as int]],
{
    reveal_strlit("0123456789abcdef");
    assert((16 * n + units) / 16 == n && (16 * n + units) % 16 == units);
    assert(digit_char(units) == "0123456789abcdef"@[units as int]);
}

/// Four upper-case hexadecimal digits: the most significant comes first.
pub proof fn law_four_upper_digits(a: nat, b: nat, c: nat, d: nat)
    requires
        a < 16,
        b < 16,
        c < 16,
        d < 16,
    ensures
        hex4_upper(4096 * a + 256 * b + 16 * c + d) == seq![
            "0123456789ABCDEF"@[a as int],
            "0123456789ABCDEF"@[b as int],
            "0123456789ABCDEF"@[c as int],
            "0123456789ABCDEF"@[d as int],
        ],
{
    let n = 4096 * a + 256 * b + 16 * c + d;
    assert(n / 4096 == a && a % 16 == a);
    assert(n / 256 == 16 * a + b && (16 * a + b) % 16 == b);
    assert(n / 16 == 16 * (16 * a + b) + c && (16 * (16 * a + b) + c) % 16 == c);
    assert(n % 16 == d);
    lemma_upper_digit(a);
    lemma_upper_digit(b);
    lemma_upper_digit(c);
    lemma_upper_digit(d);
}

proof fn lemma_upper_digit(d: nat)
    requires
        d < 16,
    ensures
        upper_digit_char(d) == "0123456789ABCDEF"@[d as int],
{
    reveal_strlit("0123456789ABCDEF");
}

/// The text of bytes holds two lower-case digits for each byte, the more significant first.
pub proof fn law_byte_digits(bytes: Seq<u8>, i: int)
    requires
        0 <= i < bytes.len(),
    ensures
        hex_bytes(bytes).len() == 2 * bytes.len(),
        hex_bytes(bytes)[2 * i] == "0123456789abcdef"@[bytes[i] as int / 16],
        hex_bytes(bytes)[2 * i + 1] == "0123456789abcdef"@[bytes[i] as int % 16],
    decreases bytes.len(),
{
    reveal_strlit("0123456789abcdef");
    let front = bytes.drop_last();
    if front.len() > 0 {
        law_byte_digits(front, if i < front.len() {
            i
        } else {
            0
        });
    }
    assert(front.len() == 0 ==> hex_bytes(front).len() == 0);
}

/// Which texts are numbers: one digit is its value, another digit multiplies by ten and adds
/// its own, a plus sign may stand first, and a text that is empty, holds anything else, or
/// passes the limit is none.
pub proof fn law_numbers_in_text(s: Seq<char>, digit: char, max: nat)
    ensures
        unsigned_text(Seq::empty(), max) is None,
        unsigned_text(seq!['+'], max) is None,
        unsigned_text(s, max) matches Some(n) ==> n <= max,
        '0' <= digit <= '9' ==> (digit as nat - 48 <= max ==> unsigned_text(seq![digit], max)
            == Some((digit as nat - 48) as nat)),
        '0' <= digit <= '9' && unsigned_text(s, max) is Some ==> ({
            let n = unsigned_text(s, max)->0 * 10 + (digit as nat - 48);
            &&& n <= max ==> unsigned_text(s.push(digit), max) == Some(n as nat)
            &&& n > max ==> unsigned_text(s.push(digit), max) is None
        }),
        s.len() > 0 && !('0' <= digit <= '9') ==> unsigned_text(s.push(digit), max) is None,
        s.len() > 0 && s[0] != '+' ==> unsigned_text(seq!['+'] + s, max) == unsigned_text(s, max),
{
    assert(seq!['+'].skip(1) =~= Seq::<char>::empty());
    reveal_with_fuel(numeral_value, 2);
    let one = seq![digit];
    assert(one.drop_last() =~= Seq::<char>::empty());
    if '0' <= digit <= '9' {
        assert(without_plus(one) == one);
    }
    if s.len() > 0 {
        let t = s.push(digit);
        let d = without_plus(s);
        if s[0] == '+' {
            assert(without_plus(t) =~= d.push(digit));
        }
        let e = without_plus(t);
        assert(e =~= d.push(digit));
        assert(e.drop_last() =~= d);
        assert(e[d.len() as int] == digit);
        if all_dec(d) && is_dec_digit(digit) {
            assert(all_dec(e));
        }
        if s[0] != '+' {
            assert((seq!['+'] + s).skip(1) =~= s);
        }
    }
}

/// The values of digits: those of "0" to "9" are 0 to 9, and those of "a" to "f", in either
/// case, 10 to 15; no other character is a hexadecimal digit.
pub proof fn law_digit_values(c: char, i: int)
    requires
        0 <= i < 16,
    ensures
        c == "0123456789abcdef"@[i] || c == "0123456789ABCDEF"@[i] ==> is_hex_digit(c)
            && digit_value(c) == i,
        is_hex_digit(c) ==> digit_value(c) < 16 && (c == "0123456789abcdef"@[digit_value(c) as int]
            || c == "0123456789ABCDEF"@[digit_value(c) as int]),
        is_dec_digit(c) <==> is_hex_digit(c) && digit_value(c) < 10,
{
    reveal_strlit("0123456789abcdef");
    reveal_strlit("0123456789ABCDEF");
    assert(i == 0 || i == 1 || i == 2 || i == 3 || i == 4 || i == 5 || i == 6 || i == 7 || i == 8
        || i == 9 || i == 10 || i == 11 || i == 12 || i == 13 || i == 14 || i == 15);
    if is_hex_digit(c) {
        let d = digit_value(c) as int;
        assert(d == 0 || d == 1 || d == 2 || d == 3 || d == 4 || d == 5 || d == 6 || d == 7 || d
            == 8 || d == 9 || d == 10 || d == 11 || d == 12 || d == 13 || d == 14 || d == 15);
    }
}

/// A numeral is read from the left: one digit more multiplies by the base and adds its
/// value.
pub proof fn law_numerals_are_read_from_the_left(s: Seq<char>, c: char, base: nat)
    ensures
        numeral_value(Seq::empty(), base) == 0,
        numeral_value(s.push(c), base) == numeral_value(s, base) * base + digit_value(c),
{
    assert(s.push(c).drop_last() =~= s);
}

} // verus!
