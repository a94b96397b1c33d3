//! Character-level text utilities shared by the metadata parsers: line
//! splitting as Rust's `str::lines` does it, locating the `" = "` key/value
//! delimiter, and decimal rendering/parsing of 32-bit integers.

use vstd::prelude::*;

verus! {

/// First index `j >= i` with `s[j] == c`, or `s.len()` if there is none
/// (also for `i` outside `0..s.len()`).
pub open spec fn find_char(s: Seq<char>, c: char, i: int) -> int
    decreases s.len() - i,
{
    if i < 0 || i >= s.len() {
        s.len() as int
    } else if s[i] == c {
        i
    } else {
        find_char(s, c, i + 1)
    }
}

pub proof fn lemma_find_char(s: Seq<char>, c: char, i: int)
    requires
        0 <= i <= s.len(),
    ensures
        i <= find_char(s, c, i) <= s.len(),
        find_char(s, c, i) < s.len() ==> s[find_char(s, c, i)] == c,
        forall|k: int| i <= k < find_char(s, c, i) ==> s[k] != c,
    decreases s.len() - i,
{
    if i < s.len() && s[i] != c {
        lemma_find_char(s, c, i + 1);
    }
}

/// A line with one trailing carriage return stripped, as `str::lines`
/// strips it before a line feed.
pub open spec fn strip_cr(l: Seq<char>) -> Seq<char> {
    if l.len() > 0 && l[l.len() - 1] == '\r' {
        l.drop_last()
    } else {
        l
    }
}

/// The lines of `s` starting at index `a`: segments between line feeds,
/// with a carriage return before each line feed stripped, and no empty
/// segment after a final line feed.
pub open spec fn lines_from(s: Seq<char>, a: int) -> Seq<Seq<char>>
    decreases s.len() - a,
    via lines_from_decreases
{
    if a < 0 || a >= s.len() {
        Seq::empty()
    } else {
        let j = find_char(s, '\n', a);
        if j == s.len() {
            seq![s.subrange(a, s.len() as int)]
        } else {
            seq![strip_cr(s.subrange(a, j))] + lines_from(s, j + 1)
        }
    }
}

#[via_fn]
proof fn lines_from_decreases(s: Seq<char>, a: int) {
    if 0 <= a < s.len() {
        lemma_find_char(s, '\n', a);
    }
}

/// The lines of `s`, as `str::lines` yields them.
pub open spec fn lines_of(s: Seq<char>) -> Seq<Seq<char>> {
    lines_from(s, 0)
}

/// Character-by-character string equality; `==` on views.
pub fn str_eq(a: &str, b: &str) -> (r: bool)
    ensures
        r == (a@ == b@),
{
    let n = a.unicode_len();
    if n != b.unicode_len() {
        return false;
    }
    let mut i: usize = 0;
    while i < n
        invariant
            n == a@.len(),
            n == b@.len(),
            i <= n,
            forall|k: int| 0 <= k < i ==> a@[k] == b@[k],
        decreases n - i,
    {
        if a.get_char(i) != b.get_char(i) {
            return false;
        }
        i = i + 1;
    }
    proof {
        assert(a@ =~= b@);
    }
    true
}

/// First index of `c` at or after `start`, or the length.
pub fn find_char_at(s: &str, c: char, start: usize) -> (j: usize)
    requires
        start <= s@.len(),
    ensures
        j == find_char(s@, c, start as int),
        start <= j <= s@.len(),
{
    let n = s.unicode_len();
    let mut j = start;
    while j < n
        invariant
            start <= j <= n,
            n == s@.len(),
            find_char(s@, c, start as int) == find_char(s@, c, j as int),
        decreases n - j,
    {
        if s.get_char(j) == c {
            return j;
        }
        j = j + 1;
    }
    j
}

/// Split `s` into lines, as `str::lines` does.
pub fn split_lines(s: &str) -> (r: Vec<String>)
    ensures
        r.deep_view() == lines_of(s@),
{
    let n = s.unicode_len();
    let mut out: Vec<String> = Vec::new();
    let mut start: usize = 0;
    while start < n
        invariant
            n == s@.len(),
            start <= n,
            lines_of(s@) == out.deep_view() + lines_from(s@, start as int),
        decreases n - start,
    {
        let ghost prev = out.deep_view();
        let j = find_char_at(s, '\n', start);
        if j == n {
            let line = s.substring_char(start, n).to_owned();
            proof {
                assert(lines_from(s@, start as int) =~= seq![line@]);
            }
            out.push(line);
            start = n;
        } else {
            let line = if j > start && s.get_char(j - 1) == '\r' {
                s.substring_char(start, j - 1).to_owned()
            } else {
                s.substring_char(start, j).to_owned()
            };
            proof {
                assert(s@.subrange(start as int, j as int).len() == j - start);
                if j > start && s@[j as int - 1] == '\r' {
                    assert(s@.subrange(start as int, j as int).drop_last() =~= s@.subrange(
                        start as int,
                        j as int - 1,
                    ));
                }
                assert(line@ == strip_cr(s@.subrange(start as int, j as int)));
                assert(lines_from(s@, start as int) =~= seq![line@] + lines_from(
                    s@,
                    j + 1 as int,
                ));
            }
            out.push(line);
            start = j + 1;
        }
        proof {
            assert(out.deep_view() =~= prev.push(out.deep_view().last()));
            assert(lines_of(s@) =~= out.deep_view() + lines_from(s@, start as int));
        }
    }
    proof {
        assert(lines_from(s@, start as int) =~= Seq::<Seq<char>>::empty());
        assert(lines_of(s@) =~= out.deep_view());
    }
    out
}

/// `find_char` finds exactly the position whose earlier positions all
/// miss `c`.
pub proof fn lemma_find_char_is(s: Seq<char>, c: char, i: int, j: int)
    requires
        0 <= i <= j <= s.len(),
        forall|k: int| i <= k < j ==> s[k] != c,
        j == s.len() || s[j] == c,
    ensures
        find_char(s, c, i) == j,
{
    lemma_find_char(s, c, i);
    let f = find_char(s, c, i);
    if f < j {
        assert(s[f] == c);
    }
    if f > j {
        assert(s[j] != c);
    }
}

/// Lines taken from index `a` are the lines of the suffix from `a`.
pub proof fn lemma_lines_from_skip(s: Seq<char>, a: int)
    requires
        0 <= a <= s.len(),
    ensures
        lines_from(s, a) == lines_of(s.skip(a)),
    decreases s.len() - a,
{
    let t = s.skip(a);
    if a == s.len() {
        assert(t =~= Seq::<char>::empty());
        assert(lines_from(s, a) =~= Seq::<Seq<char>>::empty());
        assert(lines_of(t) =~= Seq::<Seq<char>>::empty());
    } else {
        let j = find_char(s, '\n', a);
        lemma_find_char(s, '\n', a);
        assert(forall|k: int| 0 <= k < t.len() ==> t[k] == s[a + k]);
        lemma_find_char_is(t, '\n', 0, j - a);
        if j == s.len() {
            assert(s.subrange(a, s.len() as int) =~= t);
            assert(t.subrange(0, t.len() as int) =~= t);
            assert(lines_of(t) =~= seq![t]);
            assert(lines_from(s, a) =~= seq![t]);
        } else {
            assert(t.subrange(0, j - a) =~= s.subrange(a, j));
            lemma_lines_from_skip(s, j + 1);
            lemma_lines_from_skip(t, j - a + 1);
            assert(t.skip(j - a + 1) =~= s.skip(j + 1));
            assert(lines_of(t) =~= seq![strip_cr(t.subrange(0, j - a))] + lines_from(
                t,
                j - a + 1,
            ));
            assert(lines_from(s, a) =~= seq![strip_cr(s.subrange(a, j))] + lines_from(s, j + 1));
        }
    }
}

/// Splitting off one clean line: a line-feed-free segment that does not
/// end in a carriage return, then a line feed, then the rest.
pub proof fn lemma_lines_of_line(line: Seq<char>, rest: Seq<char>)
    requires
        forall|k: int| 0 <= k < line.len() ==> line[k] != '\n',
        line.len() > 0 ==> line[line.len() - 1] != '\r',
    ensures
        lines_of(line + seq!['\n'] + rest) == seq![line] + lines_of(rest),
{
    let s = line + seq!['\n'] + rest;
    assert(forall|k: int| 0 <= k < line.len() ==> s[k] == line[k]);
    assert(s[line.len() as int] == '\n');
    lemma_find_char_is(s, '\n', 0, line.len() as int);
    assert(s.subrange(0, line.len() as int) =~= line);
    assert(strip_cr(line) == line);
    lemma_lines_from_skip(s, line.len() + 1 as int);
    assert(s.skip(line.len() + 1 as int) =~= rest);
    assert(lines_of(s) =~= seq![line] + lines_of(rest));
}

/// Does the key/value delimiter `" = "` stand at index `i` of `l`?
pub open spec fn delim_at(l: Seq<char>, i: int) -> bool {
    &&& 0 <= i
    &&& i + 3 <= l.len()
    &&& l[i] == ' '
    &&& l[i + 1] == '='
    &&& l[i + 2] == ' '
}

/// First index `j >= i` where the delimiter stands, or `l.len()` if none.
pub open spec fn find_delim(l: Seq<char>, i: int) -> int
    decreases l.len() - i,
{
    if i < 0 || i + 3 > l.len() {
        l.len() as int
    } else if delim_at(l, i) {
        i
    } else {
        find_delim(l, i + 1)
    }
}

pub proof fn lemma_find_delim(l: Seq<char>, i: int)
    requires
        0 <= i <= l.len(),
    ensures
        i <= find_delim(l, i) <= l.len(),
        find_delim(l, i) < l.len() ==> delim_at(l, find_delim(l, i)),
        forall|k: int| i <= k < find_delim(l, i) ==> !delim_at(l, k),
    decreases l.len() - i,
{
    if i + 3 <= l.len() && !delim_at(l, i) {
        lemma_find_delim(l, i + 1);
    }
}

/// `find_delim` finds exactly the position whose earlier positions all
/// miss the delimiter.
pub proof fn lemma_find_delim_is(l: Seq<char>, i: int, j: int)
    requires
        0 <= i <= j <= l.len(),
        forall|k: int| i <= k < j ==> !delim_at(l, k),
        j == l.len() || delim_at(l, j),
    ensures
        find_delim(l, i) == j,
{
    lemma_find_delim(l, i);
    let f = find_delim(l, i);
    if f < j {
        assert(delim_at(l, f));
    }
    if f > j {
        assert(!delim_at(l, j));
    }
}

/// A rendered line splits back into exactly its key and value, when the
/// key holds no space and the value holds no delimiter.
pub proof fn lemma_split_kv_render(k: Seq<char>, v: Seq<char>)
    requires
        k.len() > 0,
        forall|i: int| 0 <= i < k.len() ==> k[i] != ' ',
        forall|i: int| !delim_at(v, i),
    ensures
        split_kv(k + seq![' ', '=', ' '] + v) == Some((k, v)),
{
    let l = k + seq![' ', '=', ' '] + v;
    assert(l[k.len() as int] == ' ' && l[k.len() + 1 as int] == '=' && l[k.len() + 2 as int]
        == ' ');
    assert(delim_at(l, k.len() as int));
    assert(forall|p: int| 0 <= p < k.len() ==> l[p] == k[p]);
    assert forall|p: int| 0 <= p < k.len() implies !delim_at(l, p) by {
        assert(l[p] != ' ');
    }
    lemma_find_delim_is(l, 0, k.len() as int);
    assert(forall|p: int| k.len() + 3 <= p < l.len() ==> l[p] == v[p - k.len() - 3]);
    assert forall|p: int| k.len() + 3 <= p < l.len() implies !delim_at(l, p) by {
        if delim_at(l, p) {
            assert(l[p] == v[p - k.len() - 3]);
            assert(l[p + 1] == v[p - k.len() - 2]);
            assert(l[p + 2] == v[p - k.len() - 1]);
            assert(delim_at(v, p - k.len() - 3));
        }
    }
    lemma_find_delim_is(l, k.len() + 3 as int, l.len() as int);
    assert(l.take(k.len() as int) =~= k);
    assert(l.subrange(k.len() + 3 as int, l.len() as int) =~= v);
}

/// Free of line feeds and of the delimiter: what holds of every value
/// a parsed line yields.
pub open spec fn clean_core(v: Seq<char>) -> bool {
    &&& forall|i: int| 0 <= i < v.len() ==> v[i] != '\n'
    &&& forall|i: int| !delim_at(v, i)
}

/// A value that reparses from a rendered line unchanged: free of line
/// feeds and of the delimiter, and not ending in a carriage return.
pub open spec fn clean_value(v: Seq<char>) -> bool {
    &&& clean_core(v)
    &&& v.len() > 0 ==> v[v.len() - 1] != '\r'
}

/// Every line that line splitting yields is free of line feeds.
pub proof fn lemma_lines_no_newline(s: Seq<char>, a: int)
    requires
        0 <= a,
    ensures
        forall|k: int, t: int|
            0 <= k < lines_from(s, a).len() && 0 <= t < lines_from(s, a)[k].len() ==> #[trigger] lines_from(
                s,
                a,
            )[k][t] != '\n',
    decreases s.len() - a,
{
    if 0 <= a < s.len() {
        let j = find_char(s, '\n', a);
        lemma_find_char(s, '\n', a);
        if j == s.len() {
            assert(forall|t: int|
                0 <= t < s.subrange(a, s.len() as int).len() ==> s.subrange(a, s.len() as int)[t]
                    != '\n');
        } else {
            lemma_lines_no_newline(s, j + 1);
            let line = strip_cr(s.subrange(a, j));
            assert(forall|t: int| 0 <= t < line.len() ==> line[t] == s.subrange(a, j)[t]);
            assert(forall|t: int| 0 <= t < line.len() ==> line[t] != '\n');
            assert(forall|k: int, t: int|
                0 <= k < lines_from(s, a).len() && 0 <= t < lines_from(s, a)[k].len()
                    ==> #[trigger] lines_from(s, a)[k][t] != '\n') by {
                assert(forall|k: int|
                    1 <= k < lines_from(s, a).len() ==> lines_from(s, a)[k] == lines_from(
                        s,
                        j + 1,
                    )[k - 1]);
                assert(lines_from(s, a)[0] == line);
            }
        }
    }
}

/// The value a split line yields holds no line feed (given the line has
/// none) and no delimiter.
pub proof fn lemma_split_kv_value_clean(l: Seq<char>)
    requires
        forall|t: int| 0 <= t < l.len() ==> l[t] != '\n',
        split_kv(l) is Some,
    ensures
        clean_core(split_kv(l)->Some_0.1),
{
    let d = find_delim(l, 0);
    lemma_find_delim(l, 0);
    let e = find_delim(l, d + 3);
    lemma_find_delim(l, d + 3);
    let v = l.subrange(d + 3, e);
    assert(forall|t: int| 0 <= t < v.len() ==> v[t] == l[d + 3 + t]);
    assert forall|i: int| !delim_at(v, i) by {
        if delim_at(v, i) {
            assert(v[i] == l[d + 3 + i] && v[i + 1] == l[d + 3 + i + 1] && v[i + 2] == l[d + 3 + i
                + 2]);
            assert(delim_at(l, d + 3 + i));
            assert(d + 3 + i < e);
        }
    }
}

/// Key and value of a metadata line: the text before the first `" = "`,
/// and the text from there to the next `" = "` or the end. `None` when
/// the line holds no delimiter.
pub open spec fn split_kv(l: Seq<char>) -> Option<(Seq<char>, Seq<char>)> {
    let d = find_delim(l, 0);
    if d == l.len() {
        None
    } else {
        let e = find_delim(l, d + 3);
        Some((l.take(d), l.subrange(d + 3, e)))
    }
}

/// First index at or after `start` where `" = "` stands, or the length.
fn find_delim_at(s: &str, start: usize) -> (j: usize)
    requires
        start <= s@.len(),
    ensures
        j == find_delim(s@, start as int),
        start <= j <= s@.len(),
{
    let n = s.unicode_len();
    let mut j = start;
    loop
        invariant
            start <= j <= n,
            n == s@.len(),
            find_delim(s@, start as int) == find_delim(s@, j as int),
        ensures
            j == find_delim(s@, start as int),
            start <= j <= s@.len(),
        decreases n - j,
    {
        if n - j < 3 {
            proof {
                assert(find_delim(s@, j as int) == n);
            }
            return n;
        }
        if s.get_char(j) == ' ' && s.get_char(j + 1) == '=' && s.get_char(j + 2) == ' ' {
            return j;
        }
        j = j + 1;
    }
}

/// Split a metadata line at the `" = "` delimiter, per [`split_kv`].
pub fn split_kv_line(line: &str) -> (r: Option<(String, String)>)
    ensures
        r is None <==> split_kv(line@) is None,
        r matches Some(kv) ==> (split_kv(line@) matches Some(s) && kv.0@ == s.0 && kv.1@ == s.1),
{
    let n = line.unicode_len();
    let d = find_delim_at(line, 0);
    if d == n {
        return None;
    }
    proof {
        lemma_find_delim(line@, 0);
        assert(delim_at(line@, d as int));
    }
    let e = find_delim_at(line, d + 3);
    let key = line.substring_char(0, d).to_owned();
    let value = line.substring_char(d + 3, e).to_owned();
    proof {
        assert(key@ =~= line@.take(d as int));
    }
    Some((key, value))
}

/// Is `c` one of the ten decimal digits?
pub open spec fn is_dec_digit(c: char) -> bool {
    48 <= (c as u32) <= 57
}

pub open spec fn all_dec_digits(s: Seq<char>) -> bool {
    forall|i: int| 0 <= i < s.len() ==> is_dec_digit(s[i])
}

/// Value of a digit string read in base ten.
pub open spec fn dec_val(s: Seq<char>) -> int
    decreases s.len(),
{
    if s.len() == 0 {
        0
    } else {
        dec_val(s.drop_last()) * 10 + ((s.last() as u32) - 48)
    }
}

pub proof fn lemma_dec_val_nonneg(s: Seq<char>)
    requires
        all_dec_digits(s),
    ensures
        dec_val(s) >= 0,
    decreases s.len(),
{
    if s.len() > 0 {
        assert(all_dec_digits(s.drop_last()));
        lemma_dec_val_nonneg(s.drop_last());
    }
}

pub proof fn lemma_dec_val_prefix(s: Seq<char>, k: int)
    requires
        all_dec_digits(s),
        0 <= k <= s.len(),
    ensures
        dec_val(s.take(k)) <= dec_val(s),
    decreases s.len() - k,
{
    if k < s.len() {
        assert(all_dec_digits(s.take(k)));
        lemma_dec_val_nonneg(s.take(k));
        assert(s.take(k + 1).drop_last() =~= s.take(k));
        assert(s.take(k + 1).last() == s[k]);
        lemma_dec_val_prefix(s, k + 1);
    } else {
        assert(s.take(k) =~= s);
    }
}

/// What `str::parse::<i32>` accepts and returns: an optional sign, then
/// one or more decimal digits, the value within the `i32` range.
pub open spec fn parse_i32_chars(s: Seq<char>) -> Option<i32> {
    let signed = s.len() > 0 && (s[0] == '+' || s[0] == '-');
    let body = if signed {
        s.skip(1)
    } else {
        s
    };
    if body.len() == 0 || !all_dec_digits(body) {
        None
    } else {
        let v = if s.len() > 0 && s[0] == '-' {
            -dec_val(body)
        } else {
            dec_val(body)
        };
        if i32::MIN <= v <= i32::MAX {
            Some(v as i32)
        } else {
            None
        }
    }
}

/// Parse a decimal 32-bit integer, exactly as `str::parse::<i32>` would.
pub fn parse_i32(s: &str) -> (r: Option<i32>)
    ensures
        r == parse_i32_chars(s@),
{
    let n = s.unicode_len();
    if n == 0 {
        return None;
    }
    let c0 = s.get_char(0);
    let neg = c0 == '-';
    let off: usize = if c0 == '-' || c0 == '+' {
        1
    } else {
        0
    };
    let ghost body = if off == 1 {
        s@.skip(1)
    } else {
        s@
    };
    if n == off {
        return None;
    }
    let mut i = off;
    let mut acc: i64 = 0;
    while i < n
        invariant
            off <= i <= n,
            n == s@.len(),
            off <= 1,
            n > off,
            (off == 1) == (s@[0] == '+' || s@[0] == '-'),
            body == (if off == 1 {
                s@.skip(1)
            } else {
                s@
            }),
            body.len() == n - off,
            all_dec_digits(body.take(i - off)),
            acc == dec_val(body.take(i - off)),
            0 <= acc <= 2147483648,
        decreases n - i,
    {
        let c = s.get_char(i);
        let d = c as u32;
        proof {
            assert(body[i - off] == s@[i as int]);
        }
        if d < 48 || d > 57 {
            proof {
                assert(!is_dec_digit(body[i - off]));
            }
            return None;
        }
        let dv: i64 = (d - 48) as i64;
        let t: i64 = acc * 10 + dv;
        proof {
            assert(body.take(i - off + 1).drop_last() =~= body.take(i - off));
            assert(body.take(i - off + 1).last() == body[i - off]);
        }
        if t > 2147483648i64 {
            proof {
                if all_dec_digits(body) {
                    lemma_dec_val_prefix(body, i - off + 1);
                }
            }
            return None;
        }
        acc = t;
        i = i + 1;
    }
    proof {
        assert(body.take(i - off) =~= body);
    }
    if !neg && acc == 2147483648i64 {
        return None;
    }
    let v: i64 = if neg {
        -acc
    } else {
        acc
    };
    Some(v as i32)
}

/// The decimal digit `d` as a character.
pub open spec fn digit_char(d: int) -> char {
    if d == 0 {
        '0'
    } else if d == 1 {
        '1'
    } else if d == 2 {
        '2'
    } else if d == 3 {
        '3'
    } else if d == 4 {
        '4'
    } else if d == 5 {
        '5'
    } else if d == 6 {
        '6'
    } else if d == 7 {
        '7'
    } else if d == 8 {
        '8'
    } else {
        '9'
    }
}

/// Decimal rendering of a non-negative integer, without leading zeroes.
pub open spec fn dec_str(n: int) -> Seq<char>
    recommends
        n >= 0,
    decreases n,
{
    if n < 10 {
        seq![digit_char(n)]
    } else {
        dec_str(n / 10).push(digit_char(n % 10))
    }
}

/// Decimal rendering of a 32-bit integer, with a leading minus sign for
/// negative values.
pub open spec fn i32_dec_str(v: int) -> Seq<char> {
    if v < 0 {
        seq!['-'] + dec_str(-v)
    } else {
        dec_str(v)
    }
}

fn push_dec(out: &mut String, m: u64)
    ensures
        final(out)@ == old(out)@ + dec_str(m as int),
    decreases m,
{
    let digits = "0123456789";
    proof {
        reveal_strlit("0123456789");
    }
    if m < 10 {
        let d = m as usize;
        let ds = digits.substring_ascii(d, d + 1);
        proof {
            assert(ds@ =~= seq![digit_char(m as int)]);
        }
        out.append(ds);
    } else {
        push_dec(out, m / 10);
        let d = (m % 10) as usize;
        let ds = digits.substring_ascii(d, d + 1);
        proof {
            assert(ds@ =~= seq![digit_char(m as int % 10)]);
            assert(dec_str(m as int) == dec_str(m as int / 10).push(digit_char(m as int % 10)));
        }
        out.append(ds);
        proof {
            assert(final(out)@ =~= old(out)@ + dec_str(m as int));
        }
    }
}

/// Render a 32-bit integer in decimal, exactly as `i32_dec_str` says.
pub fn render_i32(x: i32) -> (r: String)
    ensures
        r@ == i32_dec_str(x as int),
{
    let mut out = String::new();
    if x < 0 {
        out.append("-");
        proof {
            reveal_strlit("-");
            assert(out@ =~= seq!['-']);
        }
        let m: u64 = (-(x as i64)) as u64;
        push_dec(&mut out, m);
    } else {
        push_dec(&mut out, x as u64);
    }
    out
}

pub proof fn lemma_dec_str_digits(n: int)
    requires
        n >= 0,
    ensures
        dec_str(n).len() >= 1,
        all_dec_digits(dec_str(n)),
        dec_val(dec_str(n)) == n,
    decreases n,
{
    if n < 10 {
        assert(dec_str(n) =~= seq![digit_char(n)]);
        assert((digit_char(n) as u32) == 48 + n);
        assert(dec_val(seq![digit_char(n)].drop_last()) == 0) by {
            assert(seq![digit_char(n)].drop_last() =~= Seq::<char>::empty());
        }
    } else {
        lemma_dec_str_digits(n / 10);
        let s = dec_str(n);
        assert(s == dec_str(n / 10).push(digit_char(n % 10)));
        assert(s.drop_last() =~= dec_str(n / 10));
        assert(s.last() == digit_char(n % 10));
        assert((digit_char(n % 10) as u32) == 48 + n % 10);
        assert(forall|i: int| 0 <= i < s.len() - 1 ==> s[i] == dec_str(n / 10)[i]);
        assert(dec_val(s) == (n / 10) * 10 + n % 10);
        assert((n / 10) * 10 + n % 10 == n) by (nonlinear_arith);
    }
}

/// Parsing inverts rendering: the decimal text of any `i32` value parses
/// back to that value.
pub proof fn lemma_parse_render_i32(v: int)
    requires
        i32::MIN <= v <= i32::MAX,
    ensures
        parse_i32_chars(i32_dec_str(v)) == Some(v as i32),
{
    if v < 0 {
        lemma_dec_str_digits(-v);
        let s = i32_dec_str(v);
        assert(s[0] == '-');
        assert(s.skip(1) =~= dec_str(-v));
        assert(dec_val(s.skip(1)) == -v);
    } else {
        lemma_dec_str_digits(v);
        let s = i32_dec_str(v);
        assert(is_dec_digit(s[0]));
        assert(s[0] != '+' && s[0] != '-');
    }
}

/// Relies on `core::str::from_utf8`: it returns `Ok` exactly when the
/// bytes are valid UTF-8, and then the string the bytes encode.
#[verifier::external_body]
pub(crate) fn utf8_to_string(bytes: &[u8]) -> (r: Option<String>)
    ensures
        r is Some <==> vstd::utf8::valid_utf8(bytes@),
        r matches Some(s) ==> s@ == vstd::utf8::decode_utf8(bytes@),
{
    match core::str::from_utf8(bytes) {
        Ok(s) => Some(s.to_owned()),
        Err(_) => None,
    }
}

/// The decimal text of an integer is a clean metadata value.
pub proof fn lemma_i32_str_clean(x: int)
    ensures
        clean_value(i32_dec_str(x)),
{
    let s = i32_dec_str(x);
    if x < 0 {
        lemma_dec_str_digits(-x);
        assert(forall|i: int| 1 <= i < s.len() ==> s[i] == dec_str(-x)[i - 1]);
        assert(forall|i: int| 0 <= i < s.len() ==> (s[i] == '-' || is_dec_digit(s[i])));
    } else {
        lemma_dec_str_digits(x);
        assert(forall|i: int| 0 <= i < s.len() ==> (s[i] == '-' || is_dec_digit(s[i])));
    }
    assert(forall|i: int| 0 <= i < s.len() ==> s[i] != '\n' && s[i] != ' ' && s[i] != '\r');
    assert forall|i: int| !delim_at(s, i) by {
        if delim_at(s, i) {
            assert(0 <= i < s.len());
            assert(s[i] == ' ');
        }
    }
}

/// A metadata key fit for rendering: non-empty, no space, no line feed,
/// and not opening a comment.
pub open spec fn clean_key(k: Seq<char>) -> bool {
    &&& k.len() > 0
    &&& k[0] != '#'
    &&& forall|i: int| 0 <= i < k.len() ==> k[i] != ' ' && k[i] != '\n'
}

/// Are all members clean metadata values?
pub open spec fn clean_values(vs: Seq<Seq<char>>) -> bool {
    forall|i: int| 0 <= i < vs.len() ==> clean_value(#[trigger] vs[i])
}

/// Are all members free of line feeds and delimiters?
pub open spec fn core_values(vs: Seq<Seq<char>>) -> bool {
    forall|i: int| 0 <= i < vs.len() ==> clean_core(#[trigger] vs[i])
}

/// Does no member end in a carriage return?
pub open spec fn cr_free_values(vs: Seq<Seq<char>>) -> bool {
    forall|i: int|
        0 <= i < vs.len() ==> ((#[trigger] vs[i]).len() > 0 ==> vs[i][vs[i].len() - 1] != '\r')
}

/// Appending a clean member keeps a list clean.
pub proof fn lemma_core_values_push(vs: Seq<Seq<char>>, v: Seq<char>)
    requires
        core_values(vs),
        clean_core(v),
    ensures
        core_values(vs.push(v)),
{
    assert forall|i: int| 0 <= i < vs.push(v).len() implies clean_core(#[trigger] vs.push(v)[i]) by {
        if i < vs.len() {
            assert(vs.push(v)[i] == vs[i]);
        } else {
            assert(vs.push(v)[i] == v);
        }
    }
}

/// One rendered metadata line, line feed included.
pub open spec fn render_kv(k: Seq<char>, v: Seq<char>) -> Seq<char> {
    k + seq![' ', '=', ' '] + v + seq!['\n']
}

/// The rendered lines of one multi-valued key, from index `i` on.
pub open spec fn render_list(k: Seq<char>, vs: Seq<Seq<char>>, i: int) -> Seq<char>
    decreases vs.len() - i,
{
    if i < 0 || i >= vs.len() {
        Seq::empty()
    } else {
        render_kv(k, vs[i]) + render_list(k, vs, i + 1)
    }
}

/// A clean rendered line contributes exactly one line, which splits
/// back into its key and value.
pub proof fn lemma_render_kv_lines(k: Seq<char>, v: Seq<char>, rest: Seq<char>)
    requires
        clean_key(k),
        clean_value(v),
    ensures
        lines_of(render_kv(k, v) + rest) == seq![k + seq![' ', '=', ' '] + v] + lines_of(rest),
        split_kv(k + seq![' ', '=', ' '] + v) == Some((k, v)),
        (k + seq![' ', '=', ' '] + v).len() > 0,
        (k + seq![' ', '=', ' '] + v)[0] == k[0],
{
    let line = k + seq![' ', '=', ' '] + v;
    assert(render_kv(k, v) + rest =~= line + seq!['\n'] + rest);
    assert(forall|t: int| 0 <= t < k.len() ==> line[t] == k[t]);
    assert(line[k.len() as int] == ' ' && line[k.len() + 1 as int] == '=' && line[k.len()
        + 2 as int] == ' ');
    assert(forall|t: int| k.len() + 3 <= t < line.len() ==> line[t] == v[t - k.len() - 3]);
    assert forall|t: int| 0 <= t < line.len() implies line[t] != '\n' by {
        if t < k.len() {
            assert(line[t] == k[t]);
        } else if t >= k.len() + 3 {
            assert(line[t] == v[t - k.len() - 3]);
        }
    }
    if v.len() > 0 {
        assert(line[line.len() - 1] == v[v.len() - 1]);
    } else {
        assert(line[line.len() - 1] == ' ');
    }
    lemma_lines_of_line(line, rest);
    lemma_split_kv_render(k, v);
}

/// Append one rendered metadata line.
pub fn push_kv(out: &mut String, k: &str, v: &str)
    ensures
        final(out)@ == old(out)@ + render_kv(k@, v@),
{
    out.append(k);
    out.append(" = ");
    out.append(v);
    out.append("\n");
    proof {
        reveal_strlit(" = ");
        reveal_strlit("\n");
        assert(" = "@ =~= seq![' ', '=', ' ']);
        assert("\n"@ =~= seq!['\n']);
        assert(final(out)@ =~= old(out)@ + render_kv(k@, v@));
    }
}

/// Append the rendered lines of one multi-valued key.
pub fn push_list(out: &mut String, k: &str, vs: &Vec<String>)
    ensures
        final(out)@ == old(out)@ + render_list(k@, vs.deep_view(), 0),
{
    let ghost dv = vs.deep_view();
    let ghost base = old(out)@;
    let n = vs.len();
    let mut i: usize = 0;
    while i < n
        invariant
            n == vs.len(),
            dv == vs.deep_view(),
            i <= n,
            base + render_list(k@, dv, 0) == out@ + render_list(k@, dv, i as int),
        decreases n - i,
    {
        proof {
            assert(dv[i as int] == vs@[i as int]@);
        }
        let ghost prev = out@;
        push_kv(out, k, vs[i].as_str());
        proof {
            assert(render_list(k@, dv, i as int) == render_kv(k@, dv[i as int]) + render_list(
                k@,
                dv,
                i + 1 as int,
            ));
            assert(prev + render_list(k@, dv, i as int) =~= out@ + render_list(
                k@,
                dv,
                i + 1 as int,
            ));
        }
        i = i + 1;
    }
    proof {
        assert(render_list(k@, dv, n as int) =~= Seq::<char>::empty());
        assert(final(out)@ =~= base + render_list(k@, dv, 0));
    }
}

/// Does `p` stand at the start of `s`?
pub fn str_starts_with(s: &str, p: &str) -> (r: bool)
    ensures
        r == (p@.len() <= s@.len() && s@.take(p@.len() as int) == p@),
{
    let np = p.unicode_len();
    let ns = s.unicode_len();
    if np > ns {
        return false;
    }
    let mut i: usize = 0;
    while i < np
        invariant
            np == p@.len(),
            ns == s@.len(),
            np <= ns,
            i <= np,
            forall|k: int| 0 <= k < i ==> s@[k] == p@[k],
        decreases np - i,
    {
        if s.get_char(i) != p.get_char(i) {
            proof {
                assert(s@.take(np as int)[i as int] != p@[i as int]);
            }
            return false;
        }
        i = i + 1;
    }
    proof {
        assert(s@.take(np as int) =~= p@);
    }
    true
}

/// Does `s` end with `suffix`?
pub open spec fn ends_with(s: Seq<char>, suffix: Seq<char>) -> bool {
    suffix.len() <= s.len() && s.skip(s.len() - suffix.len()) == suffix
}

/// An element-by-element copy of a vector of strings.
pub fn clone_strings(v: &Vec<String>) -> (r: Vec<String>)
    ensures
        r@ == v@,
        r.deep_view() == v.deep_view(),
{
    let n = v.len();
    let mut r: Vec<String> = Vec::new();
    let mut i: usize = 0;
    while i < n
        invariant
            n == v.len(),
            i <= n,
            r@ == v@.take(i as int),
        decreases n - i,
    {
        r.push(v[i].clone());
        proof {
            assert(r@ =~= v@.take(i + 1 as int));
        }
        i = i + 1;
    }
    proof {
        assert(r@ =~= v@);
        assert(r.deep_view() =~= v.deep_view());
    }
    r
}

/// An element-by-element copy of a byte vector.
pub fn clone_bytes(v: &Vec<u8>) -> (r: Vec<u8>)
    ensures
        r@ == v@,
{
    let n = v.len();
    let mut r: Vec<u8> = Vec::new();
    let mut i: usize = 0;
    while i < n
        invariant
            n == v.len(),
            i <= n,
            r@ == v@.take(i as int),
        decreases n - i,
    {
        r.push(v[i]);
        proof {
            assert(r@ =~= v@.take(i + 1 as int));
        }
        i = i + 1;
    }
    proof {
        assert(r@ =~= v@);
    }
    r
}

/// Is the view of `s` a member of the views of `v`?
pub fn vec_contains_str(v: &Vec<String>, s: &str) -> (r: bool)
    ensures
        r == v.deep_view().contains(s@),
{
    let n = v.len();
    let mut i: usize = 0;
    while i < n
        invariant
            n == v.len(),
            i <= n,
            forall|k: int| 0 <= k < i ==> v.deep_view()[k] != s@,
        decreases n - i,
    {
        if str_eq(v[i].as_str(), s) {
            proof {
                assert(v.deep_view()[i as int] == s@);
            }
            return true;
        }
        i = i + 1;
    }
    proof {
        assert(!v.deep_view().contains(s@));
    }
    false
}

} // verus!
