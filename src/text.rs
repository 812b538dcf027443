//! Character-sequence helpers that the line decoder is built from: finding,
//! splitting, whitespace tokens, line breaks and unsigned numbers.
use vstd::prelude::*;

verus! {

/// Where `find_from` lands: at or after `i`, with no `c` before it.
pub proof fn lemma_find_from(s: Seq<char>, c: char, i: int)
    requires
        0 <= i <= s.len(),
    ensures
        i <= find_from(s, c, i) <= s.len(),
        forall|k: int| i <= k < find_from(s, c, i) ==> s[k] != c,
        find_from(s, c, i) < s.len() ==> s[find_from(s, c, i)] == c,
    decreases s.len() - i,
{
    if i < s.len() && s[i] != c {
        lemma_find_from(s, c, i + 1);
    }
}

/// Index of the first `c` in `s` at or after `i`, or `s.len()` if there is none.
pub open spec fn find_from(s: Seq<char>, c: char, i: int) -> int
    decreases s.len() - i,
{
    if i >= s.len() {
        s.len() as int
    } else if s[i] == c {
        i
    } else {
        find_from(s, c, i + 1)
    }
}

/// `s` cut at the first `c`: the part before it and the part after it.
pub open spec fn split_once(s: Seq<char>, c: char) -> Option<(Seq<char>, Seq<char>)> {
    let j = find_from(s, c, 0);
    if j < s.len() {
        Some((s.subrange(0, j), s.subrange(j + 1, s.len() as int)))
    } else {
        None
    }
}

/// The pieces of `s` between occurrences of `c`, scanning from `i` with the
/// current piece starting at `start` (`str::split` with a char pattern).
pub open spec fn split_scan(s: Seq<char>, c: char, start: int, i: int) -> Seq<Seq<char>>
    decreases s.len() - i,
{
    if i >= s.len() {
        seq![s.subrange(start, s.len() as int)]
    } else if s[i] == c {
        seq![s.subrange(start, i)] + split_scan(s, c, i + 1, i + 1)
    } else {
        split_scan(s, c, start, i + 1)
    }
}

/// All pieces of `s` between occurrences of `c`; never empty.
pub open spec fn split(s: Seq<char>, c: char) -> Seq<Seq<char>> {
    split_scan(s, c, 0, 0)
}

/// Unicode `White_Space`, as `char::is_whitespace` decides it.
pub open spec fn is_space(c: char) -> bool {
    c == ' ' || ('\t' <= c && c <= '\r') || c == '\u{85}' || c == '\u{a0}' || c == '\u{1680}'
        || ('\u{2000}' <= c && c <= '\u{200a}') || c == '\u{2028}' || c == '\u{2029}'
        || c == '\u{202f}' || c == '\u{205f}' || c == '\u{3000}'
}

/// The maximal runs of non-space characters of `s` from `i` on; `in_word`
/// says whether a run began at `start` and is still open.
pub open spec fn words_scan(s: Seq<char>, start: int, in_word: bool, i: int) -> Seq<Seq<char>>
    decreases s.len() - i,
{
    if i >= s.len() {
        if in_word {
            seq![s.subrange(start, s.len() as int)]
        } else {
            seq![]
        }
    } else if is_space(s[i]) {
        if in_word {
            seq![s.subrange(start, i)] + words_scan(s, i + 1, false, i + 1)
        } else {
            words_scan(s, i + 1, false, i + 1)
        }
    } else if in_word {
        words_scan(s, start, true, i + 1)
    } else {
        words_scan(s, i, true, i + 1)
    }
}

/// The whitespace-separated tokens of `s` (`str::split_whitespace`).
pub open spec fn words(s: Seq<char>) -> Seq<Seq<char>> {
    words_scan(s, 0, false, 0)
}

/// A line without the `\r` of a `\r\n` ending.
pub open spec fn strip_cr(t: Seq<char>) -> Seq<char> {
    if t.len() > 0 && t.last() == '\r' {
        t.drop_last()
    } else {
        t
    }
}

/// The lines of `s` from `i` on, the current one starting at `start`.
pub open spec fn lines_scan(s: Seq<char>, start: int, i: int) -> Seq<Seq<char>>
    decreases s.len() - i,
{
    if i >= s.len() {
        if start < s.len() {
            seq![s.subrange(start, s.len() as int)]
        } else {
            seq![]
        }
    } else if s[i] == '\n' {
        seq![strip_cr(s.subrange(start, i))] + lines_scan(s, i + 1, i + 1)
    } else {
        lines_scan(s, start, i + 1)
    }
}

/// The lines of `s` (`str::lines`): split at `\n` or `\r\n`, with no empty
/// line after a final line ending.
pub open spec fn lines(s: Seq<char>) -> Seq<Seq<char>> {
    lines_scan(s, 0, 0)
}

/// The characters of a string, in order.
pub fn chars_of(s: &str) -> (r: Vec<char>)
    ensures
        r@ == s@,
{
    let n = s.unicode_len();
    let mut out: Vec<char> = Vec::new();
    let mut i: usize = 0;
    while i < n
        invariant
            n == s@.len(),
            i <= n,
            out@ == s@.subrange(0, i as int),
        decreases n - i,
    {
        out.push(s.get_char(i));
        i += 1;
        assert(out@ =~= s@.subrange(0, i as int));
    }
    assert(out@ =~= s@);
    out
}

/// Relies on `String: FromIterator<&char>`: the string holds the characters in order.
#[verifier::external_body]
pub(crate) fn string_of(v: &[char]) -> (r: String)
    ensures
        r@ == v@,
{
    v.iter().collect()
}

/// `v[from..to]` as a new vector.
pub fn slice_of(v: &Vec<char>, from: usize, to: usize) -> (r: Vec<char>)
    requires
        from <= to <= v.len(),
    ensures
        r@ == v@.subrange(from as int, to as int),
{
    let mut out: Vec<char> = Vec::new();
    let mut i: usize = from;
    while i < to
        invariant
            from <= i <= to <= v.len(),
            out@ == v@.subrange(from as int, i as int),
        decreases to - i,
    {
        out.push(v[i]);
        i += 1;
        assert(out@ =~= v@.subrange(from as int, i as int));
    }
    out
}

/// Whether `a` and `b` hold the same characters.
pub fn same_chars(a: &Vec<char>, b: &str) -> (r: bool)
    ensures
        r == (a@ == b@),
{
    let n = b.unicode_len();
    if a.len() != n {
        return false;
    }
    let mut i: usize = 0;
    while i < n
        invariant
            n == b@.len(),
            n == a@.len(),
            i <= n,
            forall|k: int| 0 <= k < i ==> a@[k] == b@[k],
        decreases n - i,
    {
        if a[i] != b.get_char(i) {
            return false;
        }
        i += 1;
    }
    assert(a@ =~= b@);
    true
}

/// The first index of `c` at or after `start`, or `s.len()`.
pub fn find_char(s: &Vec<char>, c: char, start: usize) -> (r: usize)
    requires
        start <= s.len(),
    ensures
        r == find_from(s@, c, start as int),
        start <= r <= s.len(),
        forall|k: int| start <= k < r ==> s@[k] != c,
        r < s.len() ==> s@[r as int] == c,
{
    let mut i: usize = start;
    while i < s.len()
        invariant
            start <= i <= s.len(),
            find_from(s@, c, start as int) == find_from(s@, c, i as int),
            forall|k: int| start <= k < i ==> s@[k] != c,
        decreases s.len() - i,
    {
        if s[i] == c {
            return i;
        }
        i += 1;
    }
    i
}

/// `s` cut at its first `c` (`str::split_once`).
pub fn split_once_at(s: &Vec<char>, c: char) -> (r: Option<(Vec<char>, Vec<char>)>)
    ensures
        match r {
            Some((a, b)) => split_once(s@, c) == Some((a@, b@)),
            None => split_once(s@, c) is None,
        },
{
    let j = find_char(s, c, 0);
    if j < s.len() {
        Some((slice_of(s, 0, j), slice_of(s, j + 1, s.len())))
    } else {
        None
    }
}

/// The pieces of `s` between occurrences of `c` (`str::split`).
pub fn split_at_char(s: &Vec<char>, c: char) -> (r: Vec<Vec<char>>)
    ensures
        r@.map_values(|p: Vec<char>| p@) == split(s@, c),
{
    let mut out: Vec<Vec<char>> = Vec::new();
    let mut start: usize = 0;
    let mut i: usize = 0;
    while i < s.len()
        invariant
            start <= i <= s.len(),
            out@.map_values(|p: Vec<char>| p@) + split_scan(s@, c, start as int, i as int)
                == split(s@, c),
        decreases s.len() - i,
    {
        if s[i] == c {
            let piece = slice_of(s, start, i);
            proof {
                let pv = piece@;
                assert(out@.push(piece).map_values(|p: Vec<char>| p@) =~= out@.map_values(
                    |p: Vec<char>| p@,
                ).push(pv));
                assert(out@.map_values(|p: Vec<char>| p@).push(pv) + split_scan(
                    s@,
                    c,
                    i + 1,
                    i + 1,
                ) =~= out@.map_values(|p: Vec<char>| p@) + (seq![pv] + split_scan(
                    s@,
                    c,
                    i + 1,
                    i + 1,
                )));
            }
            out.push(piece);
            start = i + 1;
        }
        i += 1;
    }
    let last = slice_of(s, start, s.len());
    proof {
        assert(out@.push(last).map_values(|p: Vec<char>| p@) =~= out@.map_values(
            |p: Vec<char>| p@,
        ) + seq![last@]);
    }
    out.push(last);
    out
}

/// Whether `c` is Unicode whitespace.
pub fn char_is_space(c: char) -> (r: bool)
    ensures
        r == is_space(c),
{
    c == ' ' || ('\t' <= c && c <= '\r') || c == '\u{85}' || c == '\u{a0}' || c == '\u{1680}'
        || ('\u{2000}' <= c && c <= '\u{200a}') || c == '\u{2028}' || c == '\u{2029}'
        || c == '\u{202f}' || c == '\u{205f}' || c == '\u{3000}'
}

/// The whitespace-separated tokens of `s` (`str::split_whitespace`).
pub fn split_words(s: &Vec<char>) -> (r: Vec<Vec<char>>)
    ensures
        r@.map_values(|p: Vec<char>| p@) == words(s@),
{
    let mut out: Vec<Vec<char>> = Vec::new();
    let mut start: usize = 0;
    let mut in_word = false;
    let mut i: usize = 0;
    while i < s.len()
        invariant
            start <= i <= s.len(),
            out@.map_values(|p: Vec<char>| p@) + words_scan(s@, start as int, in_word, i as int)
                == words(s@),
        decreases s.len() - i,
    {
        if char_is_space(s[i]) {
            if in_word {
                let piece = slice_of(s, start, i);
                proof {
                    let pv = piece@;
                    let rest = words_scan(s@, i + 1, false, i + 1);
                    assert(out@.push(piece).map_values(|p: Vec<char>| p@) =~= out@.map_values(
                        |p: Vec<char>| p@,
                    ).push(pv));
                    assert(out@.map_values(|p: Vec<char>| p@).push(pv) + rest =~= out@.map_values(
                        |p: Vec<char>| p@,
                    ) + (seq![pv] + rest));
                }
                out.push(piece);
            }
            in_word = false;
            start = i + 1;
        } else if !in_word {
            in_word = true;
            start = i;
        }
        i += 1;
    }
    if in_word {
        let last = slice_of(s, start, s.len());
        proof {
            assert(out@.push(last).map_values(|p: Vec<char>| p@) =~= out@.map_values(
                |p: Vec<char>| p@,
            ) + seq![last@]);
        }
        out.push(last);
    } else {
        assert(out@.map_values(|p: Vec<char>| p@) + seq![] =~= out@.map_values(
            |p: Vec<char>| p@,
        ));
    }
    out
}

/// The lines of `s` (`str::lines`).
pub fn split_lines(s: &Vec<char>) -> (r: Vec<Vec<char>>)
    ensures
        r@.map_values(|p: Vec<char>| p@) == lines(s@),
{
    let mut out: Vec<Vec<char>> = Vec::new();
    let mut start: usize = 0;
    let mut i: usize = 0;
    while i < s.len()
        invariant
            start <= i <= s.len(),
            out@.map_values(|p: Vec<char>| p@) + lines_scan(s@, start as int, i as int) == lines(
                s@,
            ),
        decreases s.len() - i,
    {
        if s[i] == '\n' {
            let end = if i > start && s[i - 1] == '\r' {
                i - 1
            } else {
                i
            };
            let piece = slice_of(s, start, end);
            proof {
                let pv = piece@;
                assert(pv =~= strip_cr(s@.subrange(start as int, i as int)));
                let rest = lines_scan(s@, i + 1, i + 1);
                assert(out@.push(piece).map_values(|p: Vec<char>| p@) =~= out@.map_values(
                    |p: Vec<char>| p@,
                ).push(pv));
                assert(out@.map_values(|p: Vec<char>| p@).push(pv) + rest =~= out@.map_values(
                    |p: Vec<char>| p@,
                ) + (seq![pv] + rest));
            }
            out.push(piece);
            start = i + 1;
        }
        i += 1;
    }
    if start < s.len() {
        let last = slice_of(s, start, s.len());
        proof {
            assert(out@.push(last).map_values(|p: Vec<char>| p@) =~= out@.map_values(
                |p: Vec<char>| p@,
            ) + seq![last@]);
        }
        out.push(last);
    } else {
        assert(out@.map_values(|p: Vec<char>| p@) + seq![] =~= out@.map_values(
            |p: Vec<char>| p@,
        ));
    }
    out
}

/// The value of a digit in base `radix` (10 or 16), if `c` is one.
pub open spec fn digit_value(c: char, radix: nat) -> Option<nat> {
    if '0' <= c && c <= '9' {
        Some((c as nat - '0' as nat) as nat)
    } else if radix == 16 && 'a' <= c && c <= 'f' {
        Some((c as nat - 'a' as nat + 10) as nat)
    } else if radix == 16 && 'A' <= c && c <= 'F' {
        Some((c as nat - 'A' as nat + 10) as nat)
    } else {
        None
    }
}

/// The number that the digits `s` write in base `radix`.
pub open spec fn digits_value(s: Seq<char>, radix: nat) -> nat
    decreases s.len(),
{
    if s.len() == 0 {
        0
    } else {
        digits_value(s.drop_last(), radix) * radix + digit_value(s.last(), radix).unwrap_or(0)
    }
}

/// The digits of an unsigned number: `s` without one leading `+`.
pub open spec fn unsigned_digits(s: Seq<char>) -> Seq<char> {
    if s.len() > 0 && s[0] == '+' {
        s.drop_first()
    } else {
        s
    }
}

/// Whether every character of `d` is a digit in base `radix`.
pub open spec fn all_digits(d: Seq<char>, radix: nat) -> bool {
    forall|k: int| 0 <= k < d.len() ==> (#[trigger] digit_value(d[k], radix)) is Some
}

/// An unsigned number in base `radix` no greater than `max`, written as an
/// optional `+` and at least one digit (`u32::from_str_radix`, `str::parse`).
pub open spec fn parse_unsigned(s: Seq<char>, radix: nat, max: nat) -> Option<nat> {
    let d = unsigned_digits(s);
    if d.len() > 0 && all_digits(d, radix) && digits_value(d, radix) <= max {
        Some(digits_value(d, radix))
    } else {
        None
    }
}

proof fn lemma_digits_value_grows(s: Seq<char>, radix: nat, i: int, j: int)
    requires
        radix >= 1,
        0 <= i <= j <= s.len(),
    ensures
        digits_value(s.take(i), radix) <= digits_value(s.take(j), radix),
    decreases j - i,
{
    if i < j {
        lemma_digits_value_grows(s, radix, i, j - 1);
        assert(s.take(j).drop_last() =~= s.take(j - 1));
        let v = digits_value(s.take(j - 1), radix);
        assert(v * radix >= v) by (nonlinear_arith)
            requires
                radix >= 1,
        ;
    }
}

/// The unsigned number that `s` writes in base `radix`, if it is at most `max`.
pub fn parse_unsigned_chars(s: &Vec<char>, radix: u64, max: u64) -> (r: Option<u64>)
    requires
        radix == 10 || radix == 16,
    ensures
        match r {
            Some(v) => parse_unsigned(s@, radix as nat, max as nat) == Some(v as nat),
            None => parse_unsigned(s@, radix as nat, max as nat) is None,
        },
{
    let ghost d = unsigned_digits(s@);
    let first: usize = if s.len() > 0 && s[0] == '+' {
        1
    } else {
        0
    };
    if first >= s.len() {
        assert(d.len() == 0);
        return None;
    }
    assert(d =~= s@.subrange(first as int, s.len() as int));
    let mut acc: u64 = 0;
    let mut i: usize = first;
    while i < s.len()
        invariant
            first <= i <= s.len(),
            d == s@.subrange(first as int, s.len() as int),
            d == unsigned_digits(s@),
            radix == 10 || radix == 16,
            acc as nat == digits_value(d.take(i - first), radix as nat),
            acc <= max,
            forall|k: int| 0 <= k < i - first ==> (#[trigger] digit_value(d[k], radix as nat)) is Some,
        decreases s.len() - i,
    {
        let c = s[i];
        assert(d[i - first] == c);
        let dv: u64 = if '0' <= c && c <= '9' {
            (c as u64) - ('0' as u64)
        } else if radix == 16 && 'a' <= c && c <= 'f' {
            (c as u64) - ('a' as u64) + 10
        } else if radix == 16 && 'A' <= c && c <= 'F' {
            (c as u64) - ('A' as u64) + 10
        } else {
            assert(digit_value(d[i - first], radix as nat) is None);
            assert(!all_digits(d, radix as nat));
            return None;
        };
        let ghost n = i - first;
        assert(d.take(n + 1).drop_last() =~= d.take(n));
        assert(d.take(n + 1).last() == c);
        assert(digits_value(d.take(n + 1), radix as nat) == acc * radix + dv);
        if dv > max {
            proof {
                lemma_digits_value_grows(d, radix as nat, n + 1, d.len() as int);
                assert(d.take(d.len() as int) =~= d);
                assert(acc * radix + dv >= dv) by (nonlinear_arith)
                    requires
                        radix > 0,
                ;
            }
            return None;
        }
        let lim: u64 = (max - dv) / radix;
        if acc > lim {
            proof {
                let m = (max - dv) as int;
                let r = radix as int;
                assert(acc * radix + dv > max) by (nonlinear_arith)
                    requires
                        acc > lim,
                        lim == m / r,
                        m == max - dv,
                        r == radix,
                        radix > 0,
                ;
                lemma_digits_value_grows(d, radix as nat, n + 1, d.len() as int);
                assert(d.take(d.len() as int) =~= d);
            }
            return None;
        }
        proof {
            let m = (max - dv) as int;
            let r = radix as int;
            assert(acc * radix + dv <= max) by (nonlinear_arith)
                requires
                    acc <= lim,
                    lim == m / r,
                    m == max - dv,
                    r == radix,
                    radix > 0,
            ;
        }
        acc = acc * radix + dv;
        i += 1;
    }
    assert(d.take(d.len() as int) =~= d);
    Some(acc)
}

/// With no `c` in `s` from `i` on, splitting from `i` gives what remains as one piece.
proof fn lemma_split_scan_whole(s: Seq<char>, c: char, i: int)
    requires
        0 <= i <= s.len(),
        forall|k: int| 0 <= k < s.len() ==> s[k] != c,
    ensures
        split_scan(s, c, 0, i) == seq![s],
    decreases s.len() - i,
{
    if i < s.len() {
        lemma_split_scan_whole(s, c, i + 1);
    } else {
        assert(s.subrange(0, s.len() as int) =~= s);
    }
}

/// A sequence without `c` splits into itself alone.
pub proof fn lemma_split_without_separator(s: Seq<char>, c: char)
    requires
        forall|k: int| 0 <= k < s.len() ==> s[k] != c,
    ensures
        split(s, c) == seq![s],
{
    lemma_split_scan_whole(s, c, 0);
}

/// The search from `i` stops at the first `c`.
proof fn lemma_find_first(s: Seq<char>, c: char, i: int, j: int)
    requires
        0 <= i <= j < s.len(),
        s[j] == c,
        forall|k: int| i <= k < j ==> s[k] != c,
    ensures
        find_from(s, c, i) == j,
    decreases j - i,
{
    if i < j {
        lemma_find_first(s, c, i + 1, j);
    }
}

/// Cutting `x`, `c`, `y` at its first `c`, where `x` holds no `c`, gives `x` and `y`.
pub proof fn lemma_split_once_joined(x: Seq<char>, c: char, y: Seq<char>)
    requires
        forall|k: int| 0 <= k < x.len() ==> x[k] != c,
    ensures
        split_once(x + seq![c] + y, c) == Some((x, y)),
{
    let s = x + seq![c] + y;
    lemma_find_first(s, c, 0, x.len() as int);
    assert(s.subrange(0, x.len() as int) =~= x);
    assert(s.subrange(x.len() + 1 as int, s.len() as int) =~= y);
}

/// A number that parses holds only digits and perhaps a leading `+`, so no
/// other character.
pub proof fn lemma_number_lacks(s: Seq<char>, radix: nat, max: nat, c: char)
    requires
        parse_unsigned(s, radix, max) is Some,
        c != '+',
        digit_value(c, radix) is None,
    ensures
        forall|k: int| 0 <= k < s.len() ==> s[k] != c,
{
    let d = unsigned_digits(s);
    assert forall|k: int| 0 <= k < s.len() implies s[k] != c by {
        if s.len() > 0 && s[0] == '+' {
            if k > 0 {
                assert(d[k - 1] == s[k]);
                assert(digit_value(d[k - 1], radix) is Some);
            }
        } else {
            assert(d[k] == s[k]);
            assert(digit_value(d[k], radix) is Some);
        }
    }
}

} // verus!
