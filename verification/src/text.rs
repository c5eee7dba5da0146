//! Character-level string operations used by the URL and text handling.

use vstd::prelude::*;

verus! {

/// `s` with every trailing `c` removed.
pub open spec fn trim_end_char(s: Seq<char>, c: char) -> Seq<char>
    decreases s.len(),
{
    if s.len() > 0 && s.last() == c {
        trim_end_char(s.drop_last(), c)
    } else {
        s
    }
}

/// The part of `s` after the last `c`; all of `s` when `c` does not occur.
pub open spec fn after_last(s: Seq<char>, c: char) -> Seq<char>
    decreases s.len(),
{
    if s.len() == 0 {
        s
    } else if s.last() == c {
        Seq::empty()
    } else {
        after_last(s.drop_last(), c).push(s.last())
    }
}

pub open spec fn is_digit(ch: char) -> bool {
    '0' <= ch && ch <= '9'
}

pub open spec fn digit_value(ch: char) -> int {
    ch as int - '0' as int
}

pub open spec fn all_digits(s: Seq<char>) -> bool {
    forall|i: int| 0 <= i < s.len() ==> is_digit(#[trigger] s[i])
}

/// The number that a string of decimal digits spells.
pub open spec fn decimal_value(s: Seq<char>) -> int
    decreases s.len(),
{
    if s.len() == 0 {
        0
    } else {
        decimal_value(s.drop_last()) * 10 + digit_value(s.last())
    }
}

/// What `str::parse::<u16>` accepts: an optional `+`, then one or more
/// decimal digits whose value fits in a `u16`.
pub open spec fn parse_u16_spec(s: Seq<char>) -> Option<u16> {
    let d = if s.len() > 0 && s[0] == '+' {
        s.drop_first()
    } else {
        s
    };
    if d.len() == 0 || !all_digits(d) || decimal_value(d) > u16::MAX {
        None
    } else {
        Some(decimal_value(d) as u16)
    }
}

proof fn lemma_trim_end_step(s: Seq<char>, c: char, end: int)
    requires
        0 < end <= s.len(),
        s[end - 1] == c,
    ensures
        trim_end_char(s.subrange(0, end), c) == trim_end_char(s.subrange(0, end - 1), c),
{
    assert(s.subrange(0, end).drop_last() =~= s.subrange(0, end - 1));
}

/// `s` without its trailing `c` characters.
pub fn trim_end_matches_char(s: &str, c: char) -> (r: &str)
    ensures
        r@ == trim_end_char(s@, c),
{
    let n = s.unicode_len();
    let mut end = n;
    assert(s@.subrange(0, n as int) =~= s@);
    while end > 0 && s.get_char(end - 1) == c
        invariant
            end <= n,
            n == s@.len(),
            trim_end_char(s@.subrange(0, end as int), c) == trim_end_char(s@, c),
        decreases end,
    {
        proof {
            lemma_trim_end_step(s@, c, end as int);
        }
        end = end - 1;
    }
    s.substring_char(0, end)
}

proof fn lemma_after_last_found(s: Seq<char>, c: char, k: int)
    requires
        0 <= k < s.len(),
        s[k] == c,
        forall|j: int| k < j < s.len() ==> s[j] != c,
    ensures
        after_last(s, c) == s.subrange(k + 1, s.len() as int),
    decreases s.len(),
{
    if k == s.len() - 1 {
        assert(s.subrange(k + 1, s.len() as int) =~= Seq::<char>::empty());
    } else {
        lemma_after_last_found(s.drop_last(), c, k);
        assert(s.drop_last().subrange(k + 1, s.len() - 1).push(s.last()) =~= s.subrange(
            k + 1,
            s.len() as int,
        ));
    }
}

proof fn lemma_after_last_absent(s: Seq<char>, c: char)
    requires
        forall|j: int| 0 <= j < s.len() ==> s[j] != c,
    ensures
        after_last(s, c) == s,
    decreases s.len(),
{
    if s.len() > 0 {
        lemma_after_last_absent(s.drop_last(), c);
        assert(s.drop_last().push(s.last()) =~= s);
    }
}

/// The part of `s` after its last `c`, or all of `s` when there is none.
pub fn after_last_char(s: &str, c: char) -> (r: &str)
    ensures
        r@ == after_last(s@, c),
{
    let n = s.unicode_len();
    let mut i = n;
    while i > 0
        invariant
            i <= n,
            n == s@.len(),
            forall|j: int| i <= j < n ==> s@[j] != c,
        decreases i,
    {
        if s.get_char(i - 1) == c {
            proof {
                lemma_after_last_found(s@, c, i - 1);
            }
            return s.substring_char(i, n);
        }
        i = i - 1;
    }
    proof {
        lemma_after_last_absent(s@, c);
        assert(s@.subrange(0, n as int) =~= s@);
    }
    s.substring_char(0, n)
}

proof fn lemma_decimal_prefix_le(s: Seq<char>, k: int)
    requires
        0 <= k <= s.len(),
        all_digits(s),
    ensures
        decimal_value(s.subrange(0, k)) <= decimal_value(s),
    decreases s.len(),
{
    if k < s.len() {
        let t = s.drop_last();
        assert(all_digits(t)) by {
            assert forall|i: int| 0 <= i < t.len() implies is_digit(#[trigger] t[i]) by {
                assert(t[i] == s[i]);
            }
        }
        lemma_decimal_prefix_le(t, k);
        assert(t.subrange(0, k) =~= s.subrange(0, k));
        assert(is_digit(s[s.len() - 1]));
        assert(decimal_value(t) >= 0) by {
            lemma_decimal_nonneg(t);
        }
    } else {
        assert(s.subrange(0, k) =~= s);
    }
}

proof fn lemma_decimal_nonneg(s: Seq<char>)
    requires
        all_digits(s),
    ensures
        decimal_value(s) >= 0,
    decreases s.len(),
{
    if s.len() > 0 {
        let t = s.drop_last();
        assert forall|i: int| 0 <= i < t.len() implies is_digit(#[trigger] t[i]) by {
            assert(t[i] == s[i]);
        }
        lemma_decimal_nonneg(t);
        assert(is_digit(s[s.len() - 1]));
    }
}

/// Parses a decimal `u16` the way `str::parse::<u16>` does.
pub fn parse_u16(s: &str) -> (r: Option<u16>)
    ensures
        r == parse_u16_spec(s@),
{
    let n = s.unicode_len();
    if n == 0 {
        return None;
    }
    let start: usize = if s.get_char(0) == '+' {
        1
    } else {
        0
    };
    let ghost d = if s@.len() > 0 && s@[0] == '+' {
        s@.drop_first()
    } else {
        s@
    };
    assert(d =~= s@.subrange(start as int, n as int));
    if start == n {
        return None;
    }
    let mut acc: u32 = 0;
    let mut i: usize = start;
    assert(s@.subrange(start as int, start as int) =~= Seq::<char>::empty());
    while i < n
        invariant
            start <= i <= n,
            n == s@.len(),
            n > 0,
            d == (if s@.len() > 0 && s@[0] == '+' {
                s@.drop_first()
            } else {
                s@
            }),
            d =~= s@.subrange(start as int, n as int),
            acc as int == decimal_value(s@.subrange(start as int, i as int)),
            acc <= 65535,
            all_digits(s@.subrange(start as int, i as int)),
        decreases n - i,
    {
        let ch = s.get_char(i);
        if ch < '0' || ch > '9' {
            assert(d[i - start] == ch);
            assert(!is_digit(d[i - start]));
            return None;
        }
        let dgt: u32 = (ch as u32) - ('0' as u32);
        let next: u32 = acc * 10 + dgt;
        let ghost pre = s@.subrange(start as int, i as int + 1);
        assert(pre.drop_last() =~= s@.subrange(start as int, i as int));
        assert(all_digits(pre)) by {
            assert forall|j: int| 0 <= j < pre.len() implies is_digit(#[trigger] pre[j]) by {
                if j < pre.len() - 1 {
                    assert(pre[j] == s@.subrange(start as int, i as int)[j]);
                }
            }
        }
        assert(dgt == digit_value(ch));
        assert(decimal_value(pre) == next);
        if next > 65535 {
            proof {
                if all_digits(d) {
                    assert(d.subrange(0, i - start + 1) =~= pre);
                    lemma_decimal_prefix_le(d, i - start + 1);
                }
            }
            return None;
        }
        acc = next;
        i = i + 1;
    }
    assert(s@.subrange(start as int, n as int) =~= d);
    Some(acc as u16)
}

/// Whether two string slices hold the same characters.
pub fn str_eq(a: &str, b: &str) -> (r: bool)
    ensures
        r == (a@ == b@),
{
    let x = String::from_str(a);
    let y = String::from_str(b);
    x == y
}

/// Unicode's White_Space property, which `char::is_whitespace` tests.
pub open spec fn is_whitespace_spec(c: char) -> bool {
    let u = c as u32;
    ||| 0x09 <= u <= 0x0D
    ||| u == 0x20
    ||| u == 0x85
    ||| u == 0xA0
    ||| u == 0x1680
    ||| 0x2000 <= u <= 0x200A
    ||| u == 0x2028
    ||| u == 0x2029
    ||| u == 0x202F
    ||| u == 0x205F
    ||| u == 0x3000
}

/// Whether `c` is white space, as `char::is_whitespace` decides.
pub fn is_whitespace(c: char) -> (r: bool)
    ensures
        r == is_whitespace_spec(c),
{
    let u = c as u32;
    (0x09 <= u && u <= 0x0D) || u == 0x20 || u == 0x85 || u == 0xA0 || u == 0x1680 || (0x2000 <= u
        && u <= 0x200A) || u == 0x2028 || u == 0x2029 || u == 0x202F || u == 0x205F || u == 0x3000
}

/// `s` without trailing white space.
pub open spec fn trim_end_ws(s: Seq<char>) -> Seq<char>
    decreases s.len(),
{
    if s.len() > 0 && is_whitespace_spec(s.last()) {
        trim_end_ws(s.drop_last())
    } else {
        s
    }
}

/// `s` without leading white space.
pub open spec fn trim_start_ws(s: Seq<char>) -> Seq<char>
    decreases s.len(),
{
    if s.len() > 0 && is_whitespace_spec(s[0]) {
        trim_start_ws(s.drop_first())
    } else {
        s
    }
}

/// `s` without leading and trailing white space, as `str::trim` gives it.
pub open spec fn trim_spec(s: Seq<char>) -> Seq<char> {
    trim_start_ws(trim_end_ws(s))
}

proof fn lemma_trim_start_step(s: Seq<char>, b: int, e: int)
    requires
        0 <= b < e <= s.len(),
        is_whitespace_spec(s[b]),
    ensures
        trim_start_ws(s.subrange(b, e)) == trim_start_ws(s.subrange(b + 1, e)),
{
    assert(s.subrange(b, e).drop_first() =~= s.subrange(b + 1, e));
}

/// `s` without leading and trailing white space.
pub fn trim(s: &str) -> (r: &str)
    ensures
        r@ == trim_spec(s@),
{
    let n = s.unicode_len();
    let mut e = n;
    assert(s@.subrange(0, n as int) =~= s@);
    while e > 0 && is_whitespace(s.get_char(e - 1))
        invariant
            e <= n,
            n == s@.len(),
            trim_end_ws(s@.subrange(0, e as int)) == trim_end_ws(s@),
        decreases e,
    {
        assert(s@.subrange(0, e as int).drop_last() =~= s@.subrange(0, e as int - 1));
        e = e - 1;
    }
    let mut b: usize = 0;
    assert(s@.subrange(0, e as int) =~= s@.subrange(b as int, e as int));
    while b < e && is_whitespace(s.get_char(b))
        invariant
            b <= e <= n,
            n == s@.len(),
            trim_end_ws(s@) == s@.subrange(0, e as int),
            trim_start_ws(s@.subrange(b as int, e as int)) == trim_spec(s@),
        decreases e - b,
    {
        proof {
            lemma_trim_start_step(s@, b as int, e as int);
        }
        b = b + 1;
    }
    s.substring_char(b, e)
}

/// The pieces of `s` between newlines (one more than there are newlines).
pub open spec fn split_newlines(s: Seq<char>) -> Seq<Seq<char>>
    decreases s.len(),
{
    if s.len() == 0 {
        seq![Seq::empty()]
    } else {
        let p = split_newlines(s.drop_last());
        if s.last() == '\n' {
            p.push(Seq::empty())
        } else {
            p.update(p.len() - 1, p.last().push(s.last()))
        }
    }
}

/// A line without the carriage return that ended it.
pub open spec fn strip_cr(line: Seq<char>) -> Seq<char> {
    if line.len() > 0 && line.last() == '\r' {
        line.drop_last()
    } else {
        line
    }
}

/// The lines of `s`, as `str::lines` gives them: split at `\n` or `\r\n`,
/// with a final line ending optional.
pub open spec fn lines_spec(s: Seq<char>) -> Seq<Seq<char>> {
    let p = split_newlines(s);
    let body = p.drop_last().map_values(|l: Seq<char>| strip_cr(l));
    if p.last().len() == 0 {
        body
    } else {
        body.push(p.last())
    }
}

pub open spec fn string_seq_views(v: Seq<String>) -> Seq<Seq<char>> {
    v.map_values(|x: String| x@)
}

/// A copy of `line` without a trailing carriage return.
fn strip_cr_exec(line: &String) -> (r: String)
    ensures
        r@ == strip_cr(line@),
{
    let n = line.as_str().unicode_len();
    if n > 0 && line.as_str().get_char(n - 1) == '\r' {
        let t = line.as_str().substring_char(0, n - 1);
        assert(t@ =~= line@.drop_last());
        String::from_str(t)
    } else {
        line.clone()
    }
}

/// The lines of `s` (see `lines_spec`).
pub fn lines(s: &str) -> (r: Vec<String>)
    ensures
        string_seq_views(r@) == lines_spec(s@),
{
    let n = s.unicode_len();
    let mut done: Vec<String> = Vec::new();
    let mut cur = String::new();
    let mut i: usize = 0;
    assert(s@.take(0) =~= Seq::<char>::empty());
    assert(string_seq_views(done@) =~= split_newlines(s@.take(0)).drop_last().map_values(
        |l: Seq<char>| strip_cr(l),
    ));
    while i < n
        invariant
            i <= n,
            n == s@.len(),
            split_newlines(s@.take(i as int)).len() >= 1,
            string_seq_views(done@) == split_newlines(s@.take(i as int)).drop_last().map_values(
                |l: Seq<char>| strip_cr(l),
            ),
            cur@ == split_newlines(s@.take(i as int)).last(),
        decreases n - i,
    {
        let ghost p = split_newlines(s@.take(i as int));
        assert(s@.take(i as int + 1).drop_last() =~= s@.take(i as int));
        assert(s@.take(i as int + 1).last() == s@[i as int]);
        let c = s.get_char(i);
        if c == '\n' {
            let line = strip_cr_exec(&cur);
            let ghost before = done@;
            done.push(line);
            assert(split_newlines(s@.take(i as int + 1)) == p.push(Seq::<char>::empty()));
            assert(p.push(Seq::<char>::empty()).drop_last() =~= p);
            assert(p =~= p.drop_last().push(p.last()));
            assert(string_seq_views(done@) =~= string_seq_views(before).push(strip_cr(p.last())));
            assert(p.map_values(|l: Seq<char>| strip_cr(l)) =~= p.drop_last().map_values(
                |l: Seq<char>| strip_cr(l),
            ).push(strip_cr(p.last())));
            cur = String::new();
        } else {
            let piece = s.substring_char(i, i + 1);
            cur.append(piece);
            assert(piece@ =~= seq![c]);
            let ghost q = p.update(p.len() - 1, p.last().push(c));
            assert(split_newlines(s@.take(i as int + 1)) == q);
            assert(q.drop_last() =~= p.drop_last());
        }
        i = i + 1;
    }
    assert(s@.take(n as int) =~= s@);
    if cur.as_str().unicode_len() > 0 {
        let ghost before = done@;
        done.push(cur);
        assert(string_seq_views(done@) =~= string_seq_views(before).push(
            split_newlines(s@).last(),
        ));
    }
    done
}

} // verus!
