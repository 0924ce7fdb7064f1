//! Character classes, string scanning and string building helpers shared by
//! the line and operand parsers.

use vstd::prelude::*;

verus! {

/// Whitespace as the line parsers understand it.
pub open spec fn is_space(c: char) -> bool {
    c == ' ' || c == '\t' || c == '\n' || c == '\r'
}

/// Decimal digit.
pub open spec fn is_digit(c: char) -> bool {
    '0' <= c && c <= '9'
}

/// Lowercase ASCII letter: the first character of a symbolic operand.
pub open spec fn is_lower(c: char) -> bool {
    'a' <= c && c <= 'z'
}

/// First index at or after `i` whose character is not whitespace.
pub open spec fn scan_spaces(s: Seq<char>, i: int) -> int
    decreases s.len() - i,
{
    if 0 <= i < s.len() && is_space(s[i]) {
        scan_spaces(s, i + 1)
    } else {
        i
    }
}

/// First index at or after `i` whose character is not a decimal digit.
pub open spec fn scan_digits(s: Seq<char>, i: int) -> int
    decreases s.len() - i,
{
    if 0 <= i < s.len() && is_digit(s[i]) {
        scan_digits(s, i + 1)
    } else {
        i
    }
}

/// First index at or after `i` holding the character `c`, or the length of
/// `s` when `c` does not occur there.
pub open spec fn scan_to_char(s: Seq<char>, c: char, i: int) -> int
    decreases s.len() - i,
{
    if 0 <= i < s.len() {
        if s[i] == c {
            i
        } else {
            scan_to_char(s, c, i + 1)
        }
    } else {
        i
    }
}

/// Largest index below `j` holding the character `c`, or `-1`.
pub open spec fn scan_back_to_char(s: Seq<char>, c: char, j: int) -> int
    decreases j,
{
    if 0 < j <= s.len() {
        if s[j - 1] == c {
            j - 1
        } else {
            scan_back_to_char(s, c, j - 1)
        }
    } else {
        -1
    }
}

/// Length of `s.subrange(0, j)` once every trailing `c` is removed.
pub open spec fn scan_back_while_char(s: Seq<char>, c: char, j: int) -> int
    decreases j,
{
    if 0 < j <= s.len() && s[j - 1] == c {
        scan_back_while_char(s, c, j - 1)
    } else {
        j
    }
}

/// Length of `s` once every trailing whitespace character is removed.
pub open spec fn scan_back_spaces(s: Seq<char>, j: int) -> int
    decreases j,
{
    if 0 < j <= s.len() && is_space(s[j - 1]) {
        scan_back_spaces(s, j - 1)
    } else {
        j
    }
}

/// `s` without leading whitespace.
pub open spec fn spec_trim_start(s: Seq<char>) -> Seq<char> {
    s.subrange(scan_spaces(s, 0), s.len() as int)
}

/// `s` without leading or trailing whitespace.
pub open spec fn spec_trim(s: Seq<char>) -> Seq<char> {
    let t = spec_trim_start(s);
    t.subrange(0, scan_back_spaces(t, t.len() as int))
}

/// `s` without trailing colons.
pub open spec fn spec_trim_end_colons(s: Seq<char>) -> Seq<char> {
    s.subrange(0, scan_back_while_char(s, ':', s.len() as int))
}

/// The pieces of `s[i..]` between occurrences of the separator `sep`;
/// one piece more than there are separators, some possibly empty.
pub open spec fn spec_split_from(s: Seq<char>, sep: char, i: int) -> Seq<Seq<char>>
    decreases s.len() - i,
{
    let j = scan_to_char(s, sep, i);
    if 0 <= i <= s.len() {
        if i <= j < s.len() {
            seq![s.subrange(i, j)] + spec_split_from(s, sep, j + 1)
        } else {
            seq![s.subrange(i, s.len() as int)]
        }
    } else {
        seq![]
    }
}

/// The pieces of `s` between occurrences of the separator `sep`.
pub open spec fn spec_split(s: Seq<char>, sep: char) -> Seq<Seq<char>> {
    spec_split_from(s, sep, 0)
}

/// Whether `a` holds exactly the characters of `b`.
pub fn str_equal(a: &str, b: &str) -> (r: bool)
    ensures
        r == (a@ == b@),
{
    let n = a.unicode_len();
    if n != b.unicode_len() {
        assert(a@.len() != b@.len());
        return false;
    }
    let mut i: usize = 0;
    while i < n
        invariant
            n == a@.len(),
            n == b@.len(),
            i <= n,
            forall|j: int| 0 <= j < i ==> a@[j] == b@[j],
        decreases n - i,
    {
        if a.get_char(i) != b.get_char(i) {
            return false;
        }
        i = i + 1;
    }
    proof {
        assert(a@ =~= b@);
    }
    true
}

/// Whether `c` is a whitespace character; mirrors [`is_space`].
pub fn char_is_space(c: char) -> (r: bool)
    ensures
        r == is_space(c),
{
    c == ' ' || c == '\t' || c == '\n' || c == '\r'
}

/// Whether `c` is a decimal digit; mirrors [`is_digit`].
pub fn char_is_digit(c: char) -> (r: bool)
    ensures
        r == is_digit(c),
{
    '0' <= c && c <= '9'
}

/// `s` without leading whitespace.
pub fn trim_start<'a>(s: &'a str) -> (r: &'a str)
    ensures
        r@ == spec_trim_start(s@),
{
    let n = s.unicode_len();
    let mut i: usize = 0;
    while i < n && char_is_space(s.get_char(i))
        invariant
            n == s@.len(),
            0 <= i <= n,
            scan_spaces(s@, 0) == scan_spaces(s@, i as int),
        decreases n - i,
    {
        i = i + 1;
    }
    assert(scan_spaces(s@, i as int) == i as int);
    s.substring_char(i, n)
}

/// `s` without leading or trailing whitespace.
pub fn trim<'a>(s: &'a str) -> (r: &'a str)
    ensures
        r@ == spec_trim(s@),
{
    let t = trim_start(s);
    let n = t.unicode_len();
    let mut j: usize = n;
    while j > 0 && char_is_space(t.get_char(j - 1))
        invariant
            n == t@.len(),
            0 <= j <= n,
            scan_back_spaces(t@, n as int) == scan_back_spaces(t@, j as int),
        decreases j,
    {
        j = j - 1;
    }
    assert(scan_back_spaces(t@, j as int) == j as int);
    t.substring_char(0, j)
}

/// `s` without trailing colons.
pub fn trim_end_colons<'a>(s: &'a str) -> (r: &'a str)
    ensures
        r@ == spec_trim_end_colons(s@),
{
    let n = s.unicode_len();
    let mut j: usize = n;
    while j > 0 && s.get_char(j - 1) == ':'
        invariant
            n == s@.len(),
            0 <= j <= n,
            scan_back_while_char(s@, ':', n as int) == scan_back_while_char(s@, ':', j as int),
        decreases j,
    {
        j = j - 1;
    }
    assert(scan_back_while_char(s@, ':', j as int) == j as int);
    s.substring_char(0, j)
}

/// The views of the strings in `parts`.
pub open spec fn views_of(parts: Seq<String>) -> Seq<Seq<char>> {
    parts.map_values(|p: String| p@)
}

/// Splits `s` at every occurrence of `sep`.
pub fn split_on(s: &str, sep: char) -> (r: Vec<String>)
    ensures
        views_of(r@) == spec_split(s@, sep),
{
    let n = s.unicode_len();
    let mut parts: Vec<String> = Vec::new();
    let mut start: usize = 0;
    loop
        invariant_except_break
            n == s@.len(),
            0 <= start <= n,
            spec_split(s@, sep) =~= views_of(parts@) + spec_split_from(s@, sep, start as int),
        ensures
            views_of(parts@) =~= spec_split(s@, sep),
        decreases n - start,
    {
        let mut j: usize = start;
        while j < n && s.get_char(j) != sep
            invariant
                n == s@.len(),
                start <= j <= n,
                scan_to_char(s@, sep, start as int) == scan_to_char(s@, sep, j as int),
            decreases n - j,
        {
            j = j + 1;
        }
        assert(scan_to_char(s@, sep, j as int) == j as int);
        let piece = String::from_str(s.substring_char(start, j));
        parts.push(piece);
        proof {
            assert(views_of(parts@) =~= views_of(parts@.drop_last()).push(
                s@.subrange(start as int, j as int),
            ));
        }
        if j == n {
            proof {
                assert(spec_split_from(s@, sep, start as int) =~= seq![
                    s@.subrange(start as int, n as int),
                ]);
                assert(spec_split(s@, sep) =~= views_of(parts@));
            }
            break ;
        }
        proof {
            assert(spec_split_from(s@, sep, start as int) =~= seq![
                s@.subrange(start as int, j as int),
            ] + spec_split_from(s@, sep, j as int + 1));
        }
        start = j + 1;
    }
    parts
}

/// The views of `parts`, each trimmed of surrounding whitespace.
pub open spec fn spec_trim_all(parts: Seq<Seq<char>>) -> Seq<Seq<char>> {
    parts.map_values(|p: Seq<char>| spec_trim(p))
}

/// Trims every string of `parts`.
pub fn trim_all(parts: &Vec<String>) -> (r: Vec<String>)
    ensures
        views_of(r@) == spec_trim_all(views_of(parts@)),
{
    let n = parts.len();
    let mut out: Vec<String> = Vec::new();
    let mut i: usize = 0;
    while i < n
        invariant
            n == parts@.len(),
            0 <= i <= n,
            views_of(out@) =~= spec_trim_all(views_of(parts@)).subrange(0, i as int),
        decreases n - i,
    {
        assert(views_of(parts@)[i as int] == parts@[i as int]@);
        let ghost built = views_of(out@);
        let piece = String::from_str(trim(parts[i].as_str()));
        let ghost pv = piece@;
        out.push(piece);
        proof {
            assert(views_of(out@) =~= built.push(pv));
            assert(spec_trim_all(views_of(parts@))[i as int] == spec_trim(views_of(parts@)[i as int]));
            assert(views_of(out@) =~= spec_trim_all(views_of(parts@)).subrange(0, i + 1));
        }
        i = i + 1;
    }
    proof {
        assert(spec_trim_all(views_of(parts@)).subrange(0, n as int) =~= spec_trim_all(
            views_of(parts@),
        ));
    }
    out
}

/// The character for the decimal digit `d`.
pub open spec fn digit_char(d: int) -> char {
    if d == 0 {
        '0'
    } else if d == 1 {
        '1'
    } else if d == 2 {
        '2'
    } else if d == 3 {
        '3'
    } else if d == 4 {
        '4'
    } else if d == 5 {
        '5'
    } else if d == 6 {
        '6'
    } else if d == 7 {
        '7'
    } else if d == 8 {
        '8'
    } else {
        '9'
    }
}

/// The decimal digits of the non-negative number `n`, most significant first.
pub open spec fn dec_digits(n: int) -> Seq<char>
    decreases n,
{
    if n < 10 {
        seq![digit_char(n)]
    } else {
        dec_digits(n / 10) + seq![digit_char(n % 10)]
    }
}

/// The decimal rendering of `v`, with a leading minus sign when negative.
pub open spec fn dec_str(v: int) -> Seq<char> {
    if v < 0 {
        seq!['-'] + dec_digits(-v)
    } else {
        dec_digits(v)
    }
}

/// Appends the character for the decimal digit `d` to `out`.
fn append_digit(out: &mut String, d: u32)
    requires
        d < 10,
    ensures
        final(out)@ == old(out)@ + seq![digit_char(d as int)],
{
    proof {
        reveal_strlit("0");
        reveal_strlit("1");
        reveal_strlit("2");
        reveal_strlit("3");
        reveal_strlit("4");
        reveal_strlit("5");
        reveal_strlit("6");
        reveal_strlit("7");
        reveal_strlit("8");
        reveal_strlit("9");
    }
    match d {
        0 => out.append("0"),
        1 => out.append("1"),
        2 => out.append("2"),
        3 => out.append("3"),
        4 => out.append("4"),
        5 => out.append("5"),
        6 => out.append("6"),
        7 => out.append("7"),
        8 => out.append("8"),
        _ => out.append("9"),
    }
    proof {
        assert(final(out)@ =~= old(out)@ + seq![digit_char(d as int)]);
    }
}

/// Appends the decimal digits of `n` to `out`.
fn append_dec_digits(out: &mut String, n: u32)
    ensures
        final(out)@ == old(out)@ + dec_digits(n as int),
    decreases n,
{
    if n < 10 {
        append_digit(out, n);
    } else {
        append_dec_digits(out, n / 10);
        append_digit(out, n % 10);
        proof {
            assert(final(out)@ =~= old(out)@ + dec_digits(n as int));
        }
    }
}

/// Appends the decimal rendering of `v` to `out`.
pub fn append_dec(out: &mut String, v: i32)
    ensures
        final(out)@ == old(out)@ + dec_str(v as int),
{
    let wide: i64 = v as i64;
    if wide < 0 {
        proof {
            reveal_strlit("-");
        }
        out.append("-");
        let mag: i64 = -wide;
        append_dec_digits(out, mag as u32);
        proof {
            assert(final(out)@ =~= old(out)@ + dec_str(v as int));
        }
    } else {
        append_dec_digits(out, v as u32);
    }
}

/// The decimal rendering of `v` as a string.
pub fn int_to_dec_string(v: i32) -> (r: String)
    ensures
        r@ == dec_str(v as int),
{
    let mut out = String::new();
    append_dec(&mut out, v);
    proof {
        assert(out@ =~= dec_str(v as int));
    }
    out
}

} // verus!
