//! Decimal numbers as text (parsing, printing, digit grouping), and splitting text into
//! lines and fields.
use vstd::prelude::*;

verus! {

/// The value of an ASCII decimal digit.
pub open spec fn digit_value(c: char) -> int {
    c as int - '0' as int
}

pub open spec fn is_digit(c: char) -> bool {
    '0' <= c && c <= '9'
}

pub open spec fn all_digits(s: Seq<char>) -> bool {
    forall|i: int| 0 <= i < s.len() ==> is_digit(#[trigger] s[i])
}

/// The number written by a string of decimal digits (most significant first).
pub open spec fn digits_value(s: Seq<char>) -> nat
    decreases s.len(),
{
    if s.len() == 0 {
        0
    } else {
        (digits_value(s.drop_last()) * 10 + digit_value(s.last())) as nat
    }
}

/// The shortest decimal spelling of `n`.
pub open spec fn decimal(n: nat) -> Seq<char>
    decreases n,
{
    if n < 10 {
        seq![('0' as u8 + n as u8) as char]
    } else {
        decimal(n / 10).push(('0' as u8 + (n % 10) as u8) as char)
    }
}

/// The decimal spelling of a signed integer, with a leading `-` when negative.
pub open spec fn signed_decimal(v: int) -> Seq<char> {
    if v < 0 {
        seq!['-'] + decimal((-v) as nat)
    } else {
        decimal(v as nat)
    }
}

/// The integer a string denotes: an optional sign followed by at least one digit.
pub open spec fn integer_text_value(s: Seq<char>) -> Option<int> {
    if s.len() > 1 && s[0] == '-' && all_digits(s.drop_first()) {
        Some(-(digits_value(s.drop_first()) as int))
    } else if s.len() > 1 && s[0] == '+' && all_digits(s.drop_first()) {
        Some(digits_value(s.drop_first()) as int)
    } else if s.len() > 0 && all_digits(s) {
        Some(digits_value(s) as int)
    } else {
        None
    }
}

/// What `parse_i64` reads from `s`: the integer it denotes, when that fits in an `i64`.
pub open spec fn parsed_i64(s: Seq<char>) -> Option<i64> {
    match integer_text_value(s) {
        Some(v) => if i64::MIN <= v <= i64::MAX {
            Some(v as i64)
        } else {
            None
        },
        None => None,
    }
}

/// `s[0..i]` with a space put before every character (but the first) whose distance
/// from the end of `s` is a multiple of three.
pub open spec fn grouped_prefix(s: Seq<char>, i: nat) -> Seq<char>
    decreases i,
{
    if i == 0 {
        seq![]
    } else {
        let k = (i - 1) as nat;
        if k > 0 && (s.len() - k) % 3 == 0 {
            grouped_prefix(s, k) + seq![' ', s[k as int]]
        } else {
            grouped_prefix(s, k).push(s[k as int])
        }
    }
}

/// A number's spelling split into groups of three digits, counted from the right.
pub open spec fn grouped(s: Seq<char>) -> Seq<char> {
    grouped_prefix(s, s.len())
}

/// Relies on `FromIterator<char> for String`: the string holds exactly the collected chars.
#[verifier::external_body]
pub(crate) fn string_from_chars(v: &Vec<char>) -> (r: String)
    ensures
        r@ == v@,
{
    v.iter().collect()
}

/// Relies on `str::chars`: the characters of the string, in order.
#[verifier::external_body]
pub(crate) fn chars_of(s: &str) -> (r: Vec<char>)
    ensures
        r@ == s@,
{
    s.chars().collect()
}

proof fn lemma_digits_value_bound(s: Seq<char>, i: int)
    requires
        all_digits(s),
        0 <= i <= s.len(),
    ensures
        digits_value(s.subrange(0, i)) <= digits_value(s),
    decreases s.len() - i,
{
    if i < s.len() {
        lemma_digits_value_bound(s, i + 1);
        let t = s.subrange(0, i + 1);
        assert(t.drop_last() =~= s.subrange(0, i));
        assert(is_digit(s[i]));
    } else {
        assert(s.subrange(0, i) =~= s);
    }
}

/// Reads a run of digits; `None` when it is empty, holds another character, or is larger
/// than `limit`.
fn parse_magnitude(s: &Vec<char>, start: usize, limit: u64) -> (r: Option<u64>)
    requires
        start <= s.len(),
        limit >= 9,
    ensures
        r is Some <==> (start < s.len() && all_digits(s@.subrange(start as int, s.len() as int))
            && digits_value(s@.subrange(start as int, s.len() as int)) <= limit),
        r matches Some(m) ==> m == digits_value(s@.subrange(start as int, s.len() as int)),
{
    if start == s.len() {
        return None;
    }
    let ghost t = s@.subrange(start as int, s.len() as int);
    let mut acc: u64 = 0;
    let mut i: usize = start;
    while i < s.len()
        invariant
            start <= i <= s.len(),
            t == s@.subrange(start as int, s.len() as int),
            all_digits(t.subrange(0, i - start)),
            acc == digits_value(t.subrange(0, i - start)),
            acc <= limit,
            limit >= 9,
        decreases s.len() - i,
    {
        let c = s[i];
        assert(t[i - start] == c);
        if c < '0' || c > '9' {
            assert(!is_digit(t[i - start]));
            return None;
        }
        let d: u64 = (c as u32 - '0' as u32) as u64;
        let ghost next = t.subrange(0, i - start + 1);
        assert(next.drop_last() =~= t.subrange(0, i - start));
        assert(next.last() == c);
        if acc > (limit - d) / 10 {
            assert(digits_value(next) > limit) by (nonlinear_arith)
                requires
                    acc > (limit - d) / 10,
                    digits_value(next) == acc * 10 + d,
                    d <= 9,
                    d <= limit || acc * 10 + d > limit,
            ;
            proof {
                if all_digits(t) {
                    lemma_digits_value_bound(t, i - start + 1);
                }
            }
            return None;
        }
        assert(acc * 10 + d <= limit) by (nonlinear_arith)
            requires
                acc <= (limit - d) / 10,
                d <= limit,
        ;
        acc = acc * 10 + d;
        assert(all_digits(next));
        i = i + 1;
    }
    assert(t.subrange(0, i - start) =~= t);
    Some(acc)
}

/// Parses a decimal integer with an optional sign, as `str::parse::<i64>` does.
pub fn parse_i64(text: &str) -> (r: Option<i64>)
    ensures
        r == parsed_i64(text@),
{
    let s = chars_of(text);
    parse_i64_chars(&s)
}

/// Parses a decimal integer with an optional sign.
pub fn parse_i64_chars(s: &Vec<char>) -> (r: Option<i64>)
    ensures
        r == parsed_i64(s@),
{
    let n = s.len();
    if n > 1 && (s[0] == '-' || s[0] == '+') {
        let negative = s[0] == '-';
        let limit: u64 = if negative { 9223372036854775808 } else { 9223372036854775807 };
        let m = parse_magnitude(s, 1, limit);
        assert(s@.subrange(1, n as int) =~= s@.drop_first());
        match m {
            Some(v) => {
                if negative {
                    if v == 9223372036854775808 {
                        Some(i64::MIN)
                    } else {
                        Some(-(v as i64))
                    }
                } else {
                    Some(v as i64)
                }
            },
            None => {
                proof {
                    if all_digits(s@.drop_first()) {
                        assert(!(digits_value(s@.drop_first()) <= limit));
                    }
                }
                None
            },
        }
    } else {
        let m = parse_magnitude(s, 0, 9223372036854775807);
        assert(s@.subrange(0, n as int) =~= s@);
        proof {
            if n > 1 {
                assert(!is_digit(s@[0]) || (s@[0] != '-' && s@[0] != '+'));
            }
        }
        match m {
            Some(v) => Some(v as i64),
            None => None,
        }
    }
}

/// Writes the decimal spelling of `n` at the end of `out`.
pub fn push_decimal(out: &mut Vec<char>, n: u128)
    ensures
        final(out)@ == old(out)@ + decimal(n as nat),
    decreases n,
{
    if n < 10 {
        out.push(('0' as u8 + n as u8) as char);
        assert(old(out)@ + decimal(n as nat) =~= old(out)@.push(('0' as u8 + n as u8) as char));
    } else {
        push_decimal(out, n / 10);
        out.push(('0' as u8 + (n % 10) as u8) as char);
        assert(old(out)@ + decimal(n as nat) =~= old(out)@ + decimal((n / 10) as nat)
            + seq![('0' as u8 + (n % 10) as u8) as char]);
    }
}

/// Writes the decimal spelling of a signed value at the end of `out`.
pub fn push_signed_decimal(out: &mut Vec<char>, v: i64)
    ensures
        final(out)@ == old(out)@ + signed_decimal(v as int),
{
    if v < 0 {
        out.push('-');
        let m: u128 = if v == i64::MIN {
            9223372036854775808
        } else {
            (-v) as u128
        };
        push_decimal(out, m);
        assert(old(out)@ + signed_decimal(v as int) =~= old(out)@.push('-') + decimal(m as nat));
    } else {
        push_decimal(out, v as u128);
    }
}

/// The decimal spelling of `n`.
pub fn decimal_string(n: u128) -> (r: String)
    ensures
        r@ == decimal(n as nat),
{
    let mut v: Vec<char> = Vec::new();
    push_decimal(&mut v, n);
    assert(v@ =~= decimal(n as nat));
    string_from_chars(&v)
}

/// Writes `s` split into groups of three characters, counted from the right, at the end
/// of `out`.
pub fn push_grouped(out: &mut Vec<char>, s: &Vec<char>)
    ensures
        final(out)@ == old(out)@ + grouped(s@),
{
    let n = s.len();
    let mut i: usize = 0;
    while i < n
        invariant
            n == s.len(),
            0 <= i <= n,
            out@ == old(out)@ + grouped_prefix(s@, i as nat),
        decreases n - i,
    {
        if i > 0 && (n - i) % 3 == 0 {
            out.push(' ');
        }
        out.push(s[i]);
        assert(out@ =~= old(out)@ + grouped_prefix(s@, (i + 1) as nat));
        i = i + 1;
    }
}

/// Writes the digits of `n` split into groups of three at the end of `out`.
pub fn push_grouped_decimal(out: &mut Vec<char>, n: u128)
    ensures
        final(out)@ == old(out)@ + grouped(decimal(n as nat)),
{
    let mut digits: Vec<char> = Vec::new();
    push_decimal(&mut digits, n);
    assert(digits@ =~= decimal(n as nat));
    push_grouped(out, &digits);
}

/// Writes the characters of `s` at the end of `out`.
pub fn push_str_chars(out: &mut Vec<char>, s: &str)
    ensures
        final(out)@ == old(out)@ + s@,
{
    let v = chars_of(s);
    let mut i: usize = 0;
    while i < v.len()
        invariant
            0 <= i <= v.len(),
            v@ == s@,
            out@ == old(out)@ + v@.subrange(0, i as int),
        decreases v.len() - i,
    {
        out.push(v[i]);
        assert(out@ =~= old(out)@ + v@.subrange(0, i + 1));
        i = i + 1;
    }
    assert(v@.subrange(0, v.len() as int) =~= v@);
}

/// The digits of `value` split into groups of three by spaces, counted from the right.
pub fn separate_digits_by_groups(value: u128) -> (r: String)
    ensures
        r@ == grouped(decimal(value as nat)),
{
    let mut digits: Vec<char> = Vec::new();
    push_decimal(&mut digits, value);
    assert(digits@ =~= decimal(value as nat));
    let mut out: Vec<char> = Vec::new();
    push_grouped(&mut out, &digits);
    assert(out@ =~= grouped(decimal(value as nat)));
    string_from_chars(&out)
}

/// The pieces of `s` between occurrences of `sep`; a string without `sep` is one piece.
pub open spec fn split_on(s: Seq<char>, sep: char) -> Seq<Seq<char>>
    decreases s.len(),
{
    if s.len() == 0 {
        seq![seq![]]
    } else {
        let p = split_on(s.drop_last(), sep);
        if s.last() == sep {
            p.push(seq![])
        } else {
            p.drop_last().push(p.last().push(s.last()))
        }
    }
}

/// The pieces joined, with `sep` between two neighbours.
pub open spec fn join_with(p: Seq<Seq<char>>, sep: char) -> Seq<char>
    decreases p.len(),
{
    if p.len() == 0 {
        seq![]
    } else if p.len() == 1 {
        p[0]
    } else {
        join_with(p.drop_last(), sep).push(sep) + p.last()
    }
}

pub open spec fn strip_cr(l: Seq<char>) -> Seq<char> {
    if l.len() > 0 && l.last() == '\r' {
        l.drop_last()
    } else {
        l
    }
}

/// The lines of a text: the pieces between newlines, without a trailing carriage return,
/// and without the empty piece that follows a final newline.
pub open spec fn text_lines(s: Seq<char>) -> Seq<Seq<char>> {
    let p = split_on(s, '\n');
    let q = if p.last().len() == 0 {
        p.drop_last()
    } else {
        p
    };
    q.map_values(|l: Seq<char>| strip_cr(l))
}

pub open spec fn free_of(s: Seq<char>, c: char) -> bool {
    forall|i: int| 0 <= i < s.len() ==> s[i] != c
}

pub proof fn lemma_split_len(s: Seq<char>, sep: char)
    ensures
        split_on(s, sep).len() >= 1,
    decreases s.len(),
{
    if s.len() > 0 {
        lemma_split_len(s.drop_last(), sep);
    }
}

proof fn lemma_split_extend(a: Seq<char>, b: Seq<char>, sep: char)
    requires
        free_of(b, sep),
    ensures
        split_on(a + b, sep) == split_on(a, sep).drop_last().push(split_on(a, sep).last() + b),
    decreases b.len(),
{
    lemma_split_len(a, sep);
    if b.len() == 0 {
        assert(a + b =~= a);
        assert(split_on(a, sep).last() + b =~= split_on(a, sep).last());
        assert(split_on(a, sep).drop_last().push(split_on(a, sep).last()) =~= split_on(a, sep));
    } else {
        let b0 = b.drop_last();
        assert(free_of(b0, sep));
        lemma_split_extend(a, b0, sep);
        assert((a + b).drop_last() =~= a + b0);
        assert((a + b).last() == b.last());
        let p = split_on(a, sep);
        assert(p.drop_last().push(p.last() + b0).drop_last() =~= p.drop_last());
        assert((p.last() + b0).push(b.last()) =~= p.last() + b);
    }
}

/// Splitting undoes joining, when no piece holds the separator.
pub proof fn lemma_split_join(p: Seq<Seq<char>>, sep: char)
    requires
        p.len() >= 1,
        forall|i: int| 0 <= i < p.len() ==> free_of(#[trigger] p[i], sep),
    ensures
        split_on(join_with(p, sep), sep) == p,
    decreases p.len(),
{
    if p.len() == 1 {
        lemma_split_extend(seq![], p[0], sep);
        assert(seq![] + p[0] =~= p[0]);
        assert(split_on(seq![], sep).drop_last().push(seq![] + p[0]) =~= p);
    } else {
        let q = p.drop_last();
        assert forall|i: int| 0 <= i < q.len() implies free_of(#[trigger] q[i], sep) by {
            assert(q[i] == p[i]);
        }
        lemma_split_join(q, sep);
        let j = join_with(q, sep).push(sep);
        assert(free_of(p.last(), sep)) by {
            assert(p.last() == p[p.len() - 1]);
        }
        lemma_split_extend(j, p.last(), sep);
        assert(j.drop_last() =~= join_with(q, sep));
        assert(split_on(j, sep) == q.push(seq![]));
        assert(q.push(seq![]).drop_last() =~= q);
        assert(seq![] + p.last() =~= p.last());
        assert(q.push(p.last()) =~= p);
    }
}

pub proof fn lemma_join_push(p: Seq<Seq<char>>, x: Seq<char>, sep: char)
    requires
        p.len() >= 1,
    ensures
        join_with(p.push(x), sep) == join_with(p, sep).push(sep) + x,
{
    assert(p.push(x).drop_last() =~= p);
}

/// The digits of `decimal(n)` are digits and read back as `n`.
pub proof fn lemma_decimal_value(n: nat)
    ensures
        all_digits(decimal(n)),
        digits_value(decimal(n)) == n,
        decimal(n).len() >= 1,
    decreases n,
{
    let c = ('0' as u8 + (n % 10) as u8) as char;
    assert(digit_value(c) == n % 10);
    if n >= 10 {
        lemma_decimal_value(n / 10);
        let d = decimal(n);
        assert(d.drop_last() =~= decimal(n / 10));
        assert(d.last() == c);
        assert(forall|i: int| 0 <= i < d.len() - 1 ==> d[i] == decimal(n / 10)[i]);
        assert(n == (n / 10) * 10 + n % 10);
        assert(digits_value(d) == digits_value(d.drop_last()) * 10 + digit_value(d.last()));
    } else {
        let d = decimal(n);
        assert(d.drop_last() =~= Seq::<char>::empty());
        assert(d.last() == c);
        assert(digits_value(d.drop_last()) == 0);
        assert(digits_value(d) == digits_value(d.drop_last()) * 10 + digit_value(d.last()));
    }
}

/// A signed spelling reads back as its value.
pub proof fn lemma_signed_decimal_parses(v: i64)
    ensures
        parsed_i64(signed_decimal(v as int)) == Some(v),
        forall|i: int| 0 <= i < signed_decimal(v as int).len() ==> #[trigger] signed_decimal(v as int)[i]
            == '-' || is_digit(signed_decimal(v as int)[i]),
        signed_decimal(v as int).len() >= 1,
        is_digit(signed_decimal(v as int).last()),
{
    let s = signed_decimal(v as int);
    if v < 0 {
        let m = (-(v as int)) as nat;
        lemma_decimal_value(m);
        assert(s.drop_first() =~= decimal(m));
        assert(is_digit(decimal(m)[0]));
        assert(s.last() == decimal(m).last());
    } else {
        lemma_decimal_value(v as nat);
        assert(is_digit(s[0]));
    }
}

/// Joined pieces hold a character only if some piece or the separator does.
pub proof fn lemma_join_free_of(p: Seq<Seq<char>>, sep: char, c: char)
    requires
        sep != c,
        forall|i: int| 0 <= i < p.len() ==> free_of(#[trigger] p[i], c),
    ensures
        free_of(join_with(p, sep), c),
    decreases p.len(),
{
    if p.len() > 1 {
        let q = p.drop_last();
        assert forall|i: int| 0 <= i < q.len() implies free_of(#[trigger] q[i], c) by {
            assert(q[i] == p[i]);
        }
        lemma_join_free_of(q, sep, c);
        assert(free_of(p[p.len() - 1], c));
    } else if p.len() == 1 {
        assert(free_of(p[0], c));
    }
}

/// Joined pieces end with the last piece, when that is not empty.
pub proof fn lemma_join_last(p: Seq<Seq<char>>, sep: char)
    requires
        p.len() >= 1,
        p.last().len() >= 1,
    ensures
        join_with(p, sep).len() >= 1,
        join_with(p, sep).last() == p.last().last(),
{
}

/// Splits `s` at every `sep`.
pub fn split_chars(s: &Vec<char>, sep: char) -> (r: Vec<Vec<char>>)
    ensures
        r@.map_values(|v: Vec<char>| v@) == split_on(s@, sep),
{
    let mut pieces: Vec<Vec<char>> = Vec::new();
    let mut current: Vec<char> = Vec::new();
    let mut i: usize = 0;
    while i < s.len()
        invariant
            0 <= i <= s.len(),
            pieces@.map_values(|v: Vec<char>| v@).push(current@) == split_on(s@.subrange(0, i as int), sep),
        decreases s.len() - i,
    {
        let ghost before = pieces@.map_values(|v: Vec<char>| v@).push(current@);
        let c = s[i];
        let ghost t = s@.subrange(0, i + 1);
        assert(t.drop_last() =~= s@.subrange(0, i as int));
        assert(t.last() == c);
        if c == sep {
            let done = current;
            current = Vec::new();
            pieces.push(done);
            assert(pieces@.map_values(|v: Vec<char>| v@).push(current@) =~= before.push(seq![]));
        } else {
            current.push(c);
            assert(pieces@.map_values(|v: Vec<char>| v@).push(current@) =~= before.drop_last().push(
                before.last().push(c),
            ));
        }
        i = i + 1;
    }
    assert(s@.subrange(0, s.len() as int) =~= s@);
    pieces.push(current);
    assert(pieces@.map_values(|v: Vec<char>| v@) =~= split_on(s@, sep));
    pieces
}

/// The lines of `text`, as `text_lines` describes them.
pub fn lines_of(text: &str) -> (r: Vec<Vec<char>>)
    ensures
        r@.map_values(|v: Vec<char>| v@) == text_lines(text@),
{
    let s = chars_of(text);
    let mut pieces = split_chars(&s, '\n');
    proof {
        lemma_split_len(s@, '\n');
    }
    let ghost p = pieces@.map_values(|v: Vec<char>| v@);
    let n = pieces.len();
    if pieces[n - 1].len() == 0 {
        pieces.pop();
        assert(pieces@.map_values(|v: Vec<char>| v@) =~= p.drop_last());
    }
    let ghost q = pieces@.map_values(|v: Vec<char>| v@);
    let mut out: Vec<Vec<char>> = Vec::new();
    let mut i: usize = 0;
    while i < pieces.len()
        invariant
            0 <= i <= pieces.len(),
            q == pieces@.map_values(|v: Vec<char>| v@),
            out@.map_values(|v: Vec<char>| v@) == q.subrange(0, i as int).map_values(
                |l: Seq<char>| strip_cr(l),
            ),
        decreases pieces.len() - i,
    {
        let mut line = pieces[i].clone();
        assert(line@ == q[i as int]);
        let m = line.len();
        if m > 0 && line[m - 1] == '\r' {
            line.pop();
            assert(line@ =~= q[i as int].drop_last());
        }
        assert(line@ == strip_cr(q[i as int]));
        let ghost prev = out@.map_values(|v: Vec<char>| v@);
        out.push(line);
        assert(out@.map_values(|v: Vec<char>| v@) =~= prev.push(strip_cr(q[i as int])));
        assert(q.subrange(0, i + 1) =~= q.subrange(0, i as int).push(q[i as int]));
        assert(q.subrange(0, i + 1).map_values(|l: Seq<char>| strip_cr(l)) =~= q.subrange(
            0,
            i as int,
        ).map_values(|l: Seq<char>| strip_cr(l)).push(strip_cr(q[i as int])));
        assert(out@.map_values(|v: Vec<char>| v@) =~= q.subrange(0, i + 1).map_values(
            |l: Seq<char>| strip_cr(l),
        ));
        i = i + 1;
    }
    assert(q.subrange(0, pieces.len() as int) =~= q);
    out
}

} // verus!
