//! Splitting text into lines and fields.
use vstd::prelude::*;

verus! {

/// What a sequence of strings holds, as character sequences.
pub open spec fn views(v: Seq<String>) -> Seq<Seq<char>> {
    v.map_values(|x: String| x@)
}

/// The pieces of `s` between occurrences of `sep`; `n` separators give
/// `n + 1` pieces, empty ones included.
pub open spec fn pieces_on(s: Seq<char>, sep: char) -> Seq<Seq<char>>
    decreases s.len(),
{
    if s.len() == 0 {
        seq![Seq::<char>::empty()]
    } else {
        let rest = pieces_on(s.drop_last(), sep);
        if s.last() == sep {
            rest.push(Seq::<char>::empty())
        } else {
            rest.update(rest.len() - 1, rest.last().push(s.last()))
        }
    }
}

/// Splitting always gives at least one piece.
pub proof fn lemma_pieces_on_nonempty(s: Seq<char>, sep: char)
    ensures
        pieces_on(s, sep).len() >= 1,
    decreases s.len(),
{
    if s.len() > 0 {
        lemma_pieces_on_nonempty(s.drop_last(), sep);
    }
}

/// A line without the carriage return that ended it.
pub open spec fn strip_cr(l: Seq<char>) -> Seq<char> {
    if l.len() > 0 && l.last() == '\r' {
        l.drop_last()
    } else {
        l
    }
}

/// The lines of `s`: split at `\n` or `\r\n`; a final line ending is
/// optional and gives no empty line after it.
pub open spec fn text_lines(s: Seq<char>) -> Seq<Seq<char>> {
    let parts = pieces_on(s, '\n');
    let ended = parts.drop_last().map_values(|l: Seq<char>| strip_cr(l));
    if parts.last().len() == 0 {
        ended
    } else {
        ended.push(parts.last())
    }
}

/// Splits `s` at every `sep`.
pub fn split_on_char(s: &str, sep: char) -> (r: Vec<String>)
    ensures
        views(r@) == pieces_on(s@, sep),
{
    let n = s.unicode_len();
    let mut out: Vec<String> = Vec::new();
    let mut start: usize = 0;
    let mut i: usize = 0;
    assert(s@.subrange(0, 0) =~= Seq::<char>::empty());
    assert(views(out@).push(s@.subrange(0, 0)) =~= pieces_on(s@.subrange(0, 0), sep));
    while i < n
        invariant
            n == s@.len(),
            start <= i <= n,
            views(out@).push(s@.subrange(start as int, i as int)) == pieces_on(
                s@.subrange(0, i as int),
                sep,
            ),
        decreases n - i,
    {
        let c = s.get_char(i);
        let ghost prefix = s@.subrange(0, i as int + 1);
        let ghost before = views(out@);
        assert(prefix.drop_last() =~= s@.subrange(0, i as int));
        if c == sep {
            let piece = s.substring_char(start, i).to_owned();
            out.push(piece);
            assert(views(out@) =~= before.push(s@.subrange(start as int, i as int)));
            start = i + 1;
            assert(s@.subrange(start as int, i as int + 1) =~= Seq::<char>::empty());
        } else {
            assert(s@.subrange(start as int, i as int).push(c) =~= s@.subrange(start as int, i as int + 1));
        }
        i = i + 1;
    }
    let last = s.substring_char(start, n).to_owned();
    out.push(last);
    assert(s@.subrange(0, n as int) =~= s@);
    assert(views(out@) =~= pieces_on(s@, sep));
    out
}

/// `l` without a final carriage return.
fn without_cr(l: &String) -> (r: String)
    ensures
        r@ == strip_cr(l@),
{
    let n = l.as_str().unicode_len();
    if n > 0 && l.as_str().get_char(n - 1) == '\r' {
        l.as_str().substring_char(0, n - 1).to_owned()
    } else {
        l.clone()
    }
}

/// Splits `s` into lines, as `text_lines` describes.
pub fn split_lines(s: &str) -> (r: Vec<String>)
    ensures
        views(r@) == text_lines(s@),
{
    let parts = split_on_char(s, '\n');
    proof {
        lemma_pieces_on_nonempty(s@, '\n');
    }
    let ghost ps = pieces_on(s@, '\n');
    let k: usize = parts.len() - 1;
    let mut out: Vec<String> = Vec::new();
    let mut i: usize = 0;
    while i < k
        invariant
            k + 1 == parts@.len(),
            views(parts@) == ps,
            i <= k,
            views(out@) == ps.subrange(0, i as int).map_values(|l: Seq<char>| strip_cr(l)),
        decreases k - i,
    {
        let line = without_cr(&parts[i]);
        assert(views(parts@)[i as int] == parts@[i as int]@);
        let ghost before = out@;
        out.push(line);
        assert(out@ == before.push(line));
        assert(views(out@) =~= views(before).push(line@));
        assert(views(out@) =~= ps.subrange(0, i as int + 1).map_values(|l: Seq<char>| strip_cr(l)));
        i = i + 1;
    }
    assert(ps.subrange(0, k as int) =~= ps.drop_last());
    assert(views(out@) =~= ps.drop_last().map_values(|l: Seq<char>| strip_cr(l)));
    assert(parts@[k as int]@ == ps.last());
    if parts[k].as_str().unicode_len() > 0 {
        out.push(parts[k].clone());
    }
    assert(views(out@) =~= text_lines(s@));
    out
}

/// An ASCII decimal digit.
pub open spec fn is_digit(c: char) -> bool {
    '0' <= c <= '9'
}

/// Whether every character of `s` is a digit.
pub open spec fn all_digits(s: Seq<char>) -> bool {
    forall|i: int| 0 <= i < s.len() ==> is_digit(#[trigger] s[i])
}

/// The number that a sequence of decimal digits writes.
pub open spec fn digits_value(s: Seq<char>) -> int
    decreases s.len(),
{
    if s.len() == 0 {
        0
    } else {
        digits_value(s.drop_last()) * 10 + (s.last() as u32 - '0' as u32)
    }
}

/// The integer that `s` writes: an optional `+` or `-`, then one digit or more.
pub open spec fn int_value(s: Seq<char>) -> Option<int> {
    if s.len() > 0 && (s[0] == '+' || s[0] == '-') {
        let d = s.drop_first();
        if d.len() > 0 && all_digits(d) {
            Some(if s[0] == '-' { -digits_value(d) } else { digits_value(d) })
        } else {
            None
        }
    } else if s.len() > 0 && all_digits(s) {
        Some(digits_value(s))
    } else {
        None
    }
}

/// The `i32` that `s` writes, if it writes one in range.
pub open spec fn i32_value(s: Seq<char>) -> Option<i32> {
    match int_value(s) {
        Some(v) => if i32::MIN <= v <= i32::MAX {
            Some(v as i32)
        } else {
            None
        },
        None => None,
    }
}

proof fn lemma_digits_value_nonneg(s: Seq<char>)
    requires
        all_digits(s),
    ensures
        digits_value(s) >= 0,
    decreases s.len(),
{
    if s.len() > 0 {
        assert(is_digit(s[s.len() - 1]));
        lemma_digits_value_nonneg(s.drop_last());
    }
}

/// Above this, a run of digits is out of range for `i32` whatever its sign.
const DIGITS_CAP: u64 = 0x8000_0001;

/// Reads an `i32` written in decimal, with an optional sign.
pub fn parse_i32(s: &str) -> (r: Option<i32>)
    ensures
        r == i32_value(s@),
{
    let n = s.unicode_len();
    if n == 0 {
        return None;
    }
    let first = s.get_char(0);
    let signed = first == '+' || first == '-';
    let start: usize = if signed { 1 } else { 0 };
    if start == n {
        return None;
    }
    let ghost d = s@.subrange(start as int, n as int);
    assert(signed ==> d =~= s@.drop_first());
    assert(!signed ==> d =~= s@);
    let mut acc: u64 = 0;
    let mut i: usize = start;
    assert(s@.subrange(start as int, start as int) =~= Seq::<char>::empty());
    while i < n
        invariant
            n == s@.len(),
            start <= i <= n,
            d == s@.subrange(start as int, n as int),
            n > 0,
            first == s@[0],
            signed == (first == '+' || first == '-'),
            start == (if signed { 1usize } else { 0usize }),
            signed ==> d == s@.drop_first(),
            !signed ==> d == s@,
            all_digits(s@.subrange(start as int, i as int)),
            acc as int == if digits_value(s@.subrange(start as int, i as int)) <= DIGITS_CAP {
                digits_value(s@.subrange(start as int, i as int))
            } else {
                DIGITS_CAP as int
            },
        decreases n - i,
    {
        let c = s.get_char(i);
        if !('0' <= c && c <= '9') {
            assert(d[i - start] == c);
            assert(!is_digit(d[i - start]));
            assert(!all_digits(d));
            return None;
        }
        let ghost pre = s@.subrange(start as int, i as int);
        let ghost next = s@.subrange(start as int, i as int + 1);
        assert(next.drop_last() =~= pre);
        assert(next.last() == c);
        proof {
            lemma_digits_value_nonneg(pre);
        }
        let digit: u64 = (c as u32 - '0' as u32) as u64;
        acc = acc * 10 + digit;
        if acc > DIGITS_CAP {
            acc = DIGITS_CAP;
        }
        i = i + 1;
        assert(all_digits(next));
    }
    assert(s@.subrange(start as int, i as int) =~= d);
    if first == '-' {
        if acc <= 0x8000_0000 {
            Some((0 - acc as i64) as i32)
        } else {
            None
        }
    } else {
        if acc <= 0x7fff_ffff {
            Some(acc as i32)
        } else {
            None
        }
    }
}

/// `s` without a leading `+` or `-`.
pub open spec fn unsigned_part(s: Seq<char>) -> Seq<char> {
    if s.len() > 0 && (s[0] == '+' || s[0] == '-') {
        s.drop_first()
    } else {
        s
    }
}

/// Whether `c` starts an exponent.
pub open spec fn is_exp_mark(c: char) -> bool {
    c == 'e' || c == 'E'
}

/// Where the exponent of an unsigned number `b` starts: its first `e` or
/// `E`, or the end of `b`.
pub open spec fn exp_index(b: Seq<char>) -> int
    decreases b.len(),
{
    if b.len() == 0 || is_exp_mark(b[0]) {
        0
    } else {
        1 + exp_index(b.drop_first())
    }
}

proof fn lemma_exp_index(b: Seq<char>, k: int)
    requires
        0 <= k <= b.len(),
        forall|j: int| 0 <= j < k ==> !is_exp_mark(#[trigger] b[j]),
        k == b.len() || is_exp_mark(b[k]),
    ensures
        exp_index(b) == k,
    decreases k,
{
    if k > 0 {
        assert(!is_exp_mark(b[0]));
        let t = b.drop_first();
        assert forall|j: int| 0 <= j < k - 1 implies !is_exp_mark(#[trigger] t[j]) by {
            assert(t[j] == b[j + 1]);
        }
        if k < b.len() {
            assert(t[k - 1] == b[k]);
        }
        lemma_exp_index(t, k - 1);
    }
}

/// The digits and point of a number, before its exponent.
pub open spec fn mantissa(s: Seq<char>) -> Seq<char> {
    let b = unsigned_part(s);
    b.subrange(0, exp_index(b))
}

/// Whether `m` is digits with at most one point among them and at least one
/// digit.
pub open spec fn is_mantissa(m: Seq<char>) -> bool {
    &&& exists|i: int| 0 <= i < m.len() && is_digit(#[trigger] m[i])
    &&& forall|i: int| 0 <= i < m.len() ==> is_digit(#[trigger] m[i]) || m[i] == '.'
    &&& forall|i: int, j: int|
        0 <= i < m.len() && 0 <= j < m.len() && #[trigger] m[i] == '.' && #[trigger] m[j] == '.'
            ==> i == j
}

/// Whether `e` is an exponent after its mark: an optional sign, then one
/// digit or more.
pub open spec fn is_exponent(e: Seq<char>) -> bool {
    let d = unsigned_part(e);
    d.len() > 0 && all_digits(d)
}

/// Whether `s` writes a decimal number: an optional sign, a mantissa, and
/// an optional exponent (`e` or `E`, an optional sign, digits). The words
/// `inf` and `NaN` are no numbers here.
pub open spec fn is_decimal(s: Seq<char>) -> bool {
    let b = unsigned_part(s);
    let k = exp_index(b);
    &&& is_mantissa(b.subrange(0, k))
    &&& (k == b.len() || is_exponent(b.subrange(k + 1, b.len() as int)))
}

/// Whether the decimal number `s` is above zero: it has no minus sign and
/// its mantissa a digit other than zero. Whatever the exponent, such a
/// number is above zero.
pub open spec fn decimal_positive(s: Seq<char>) -> bool {
    let m = mantissa(s);
    &&& !(s.len() > 0 && s[0] == '-')
    &&& exists|i: int| 0 <= i < m.len() && '1' <= #[trigger] m[i] <= '9'
}

/// Reads a decimal number and tells whether it is above zero; `None` where
/// `s` is no decimal number.
pub fn parse_confidence(s: &str) -> (r: Option<bool>)
    ensures
        r == (if is_decimal(s@) {
            Some(decimal_positive(s@))
        } else {
            None
        }),
{
    let n = s.unicode_len();
    let negative = n > 0 && s.get_char(0) == '-';
    let start: usize = if n > 0 && (s.get_char(0) == '+' || s.get_char(0) == '-') { 1 } else { 0 };
    let ghost b = unsigned_part(s@);
    assert(b =~= s@.subrange(start as int, n as int));
    let mut seen_digit = false;
    let mut nonzero = false;
    let mut point_at: Option<usize> = None;
    let mut i: usize = start;
    while i < n && !(s.get_char(i) == 'e' || s.get_char(i) == 'E')
        invariant
            n == s@.len(),
            start <= i <= n,
            b == s@.subrange(start as int, n as int),
            b == unsigned_part(s@),
            negative == (s@.len() > 0 && s@[0] == '-'),
            seen_digit == exists|k: int| 0 <= k < i - start && is_digit(#[trigger] b[k]),
            nonzero == exists|k: int| 0 <= k < i - start && '1' <= #[trigger] b[k] <= '9',
            forall|k: int| 0 <= k < i - start ==> is_digit(#[trigger] b[k]) || b[k] == '.',
            match point_at {
                Some(p) => start <= p < i && b[p - start] == '.' && forall|k: int|
                    0 <= k < i - start && #[trigger] b[k] == '.' ==> k == p - start,
                None => forall|k: int| 0 <= k < i - start ==> #[trigger] b[k] != '.',
            },
        decreases n - i,
    {
        let c = s.get_char(i);
        assert(b[i - start] == c);
        if c == '.' {
            match point_at {
                Some(p) => {
                    assert(b[p - start] == '.' && b[i - start] == '.');
                    proof {
                        lemma_exp_index_past(b, i - start);
                    }
                    assert(b.subrange(0, exp_index(b))[p - start] == '.');
                    assert(b.subrange(0, exp_index(b))[i - start] == '.');
                    return None;
                },
                None => {
                    point_at = Some(i);
                },
            }
        } else if '0' <= c && c <= '9' {
            seen_digit = true;
            if c != '0' {
                nonzero = true;
            }
        } else {
            assert(!(is_digit(b[i - start]) || b[i - start] == '.'));
            proof {
                lemma_exp_index_past(b, i - start);
            }
            assert(b.subrange(0, exp_index(b))[i - start] == c);
            return None;
        }
        i = i + 1;
    }
    let k: usize = i - start;
    proof {
        assert forall|j: int| 0 <= j < k implies !is_exp_mark(#[trigger] b[j]) by {
            assert(is_digit(b[j]) || b[j] == '.');
        }
        if i < n {
            assert(b[k as int] == s@[i as int]);
        }
        lemma_exp_index(b, k as int);
    }
    let ghost m = b.subrange(0, k as int);
    assert(m == mantissa(s@));
    assert(forall|j: int| 0 <= j < k ==> #[trigger] m[j] == b[j]);
    if !seen_digit {
        assert(!is_mantissa(m));
        return None;
    }
    assert(is_mantissa(m)) by {
        let w = choose|j: int| 0 <= j < k && is_digit(#[trigger] b[j]);
        assert(is_digit(m[w]));
    }
    assert(nonzero == exists|q: int| 0 <= q < m.len() && '1' <= #[trigger] m[q] <= '9') by {
        if nonzero {
            let w = choose|q: int| 0 <= q < k && '1' <= #[trigger] b[q] <= '9';
            assert('1' <= m[w] <= '9');
        }
        if exists|q: int| 0 <= q < m.len() && '1' <= #[trigger] m[q] <= '9' {
            let w = choose|q: int| 0 <= q < m.len() && '1' <= #[trigger] m[q] <= '9';
            assert('1' <= b[w] <= '9');
        }
    }
    if i < n {
        let ghost e = b.subrange(k + 1, b.len() as int);
        assert(e =~= s@.subrange(i + 1, n as int));
        let mut j: usize = i + 1;
        if j < n && (s.get_char(j) == '+' || s.get_char(j) == '-') {
            j = j + 1;
        }
        let ghost d = unsigned_part(e);
        let ghost d_start: int = j as int;
        assert(d =~= s@.subrange(d_start, n as int));
        if j == n {
            assert(!is_exponent(e));
            return None;
        }
        while j < n
            invariant
                n == s@.len(),
                0 <= d_start <= j <= n,
                d == s@.subrange(d_start, n as int),
                d == unsigned_part(e),
                b == unsigned_part(s@),
                k == exp_index(b),
                k < b.len(),
                e == b.subrange(k + 1, b.len() as int),
                d.len() > 0,
                forall|q: int| d_start <= q < j ==> is_digit(#[trigger] s@[q]),
            decreases n - j,
        {
            let c = s.get_char(j);
            if !('0' <= c && c <= '9') {
                assert(d[j - d_start] == c);
                assert(!is_digit(d[j - d_start]));
                assert(!is_exponent(e));
                return None;
            }
            j = j + 1;
        }
        assert(is_exponent(e)) by {
            assert forall|q: int| 0 <= q < d.len() implies is_digit(#[trigger] d[q]) by {
                assert(d[q] == s@[q + d_start]);
            }
        }
    }
    Some(!negative && nonzero)
}

proof fn lemma_exp_index_bounds(b: Seq<char>)
    ensures
        0 <= exp_index(b) <= b.len(),
    decreases b.len(),
{
    if b.len() > 0 {
        lemma_exp_index_bounds(b.drop_first());
    }
}

proof fn lemma_exp_index_past(b: Seq<char>, k: int)
    requires
        0 <= k < b.len(),
        forall|j: int| 0 <= j <= k ==> !is_exp_mark(#[trigger] b[j]),
    ensures
        k < exp_index(b) <= b.len(),
    decreases k,
{
    assert(!is_exp_mark(b[0]));
    lemma_exp_index_bounds(b.drop_first());
    if k > 0 {
        let t = b.drop_first();
        assert forall|j: int| 0 <= j <= k - 1 implies !is_exp_mark(#[trigger] t[j]) by {
            assert(t[j] == b[j + 1]);
        }
        lemma_exp_index_past(t, k - 1);
    }
}

} // verus!
