//! Text helpers shared by the runtime model and the build-time scanner.

use vstd::prelude::*;
use vstd::string::*;

use crate::trusted::push_char;

verus! {

/// The views of a sequence of strings.
pub open spec fn views(v: Seq<String>) -> Seq<Seq<char>> {
    v.map_values(|s: String| s@)
}

/// `segs` joined by `sep`, as `[a, b, c].join(sep)` would give it.
pub open spec fn join_with(segs: Seq<Seq<char>>, sep: Seq<char>) -> Seq<char>
    decreases segs.len(),
{
    if segs.len() == 0 {
        seq![]
    } else if segs.len() == 1 {
        segs[0]
    } else {
        join_with(segs.drop_last(), sep) + sep + segs.last()
    }
}

/// The path separator of Rust paths.
pub open spec fn path_sep() -> Seq<char> {
    seq![':', ':']
}

/// The character of a decimal or hexadecimal digit (lower case).
pub open spec fn digit_char(d: int) -> char {
    if d == 0 { '0' }
    else if d == 1 { '1' }
    else if d == 2 { '2' }
    else if d == 3 { '3' }
    else if d == 4 { '4' }
    else if d == 5 { '5' }
    else if d == 6 { '6' }
    else if d == 7 { '7' }
    else if d == 8 { '8' }
    else if d == 9 { '9' }
    else if d == 10 { 'a' }
    else if d == 11 { 'b' }
    else if d == 12 { 'c' }
    else if d == 13 { 'd' }
    else if d == 14 { 'e' }
    else { 'f' }
}

/// The decimal notation of `n`, without leading zeros.
pub open spec fn decimal(n: nat) -> Seq<char>
    decreases n,
{
    if n < 10 {
        seq![digit_char(n as int)]
    } else {
        decimal(n / 10).push(digit_char((n % 10) as int))
    }
}

/// The `k` lowest hexadecimal digits of `v`, most significant first, in lower case.
pub open spec fn hex_fixed(v: nat, k: nat) -> Seq<char>
    decreases k,
{
    if k == 0 {
        seq![]
    } else {
        hex_fixed(v / 16, (k - 1) as nat).push(digit_char((v % 16) as int))
    }
}

/// `s` with every `::` replaced by `_`, scanning from the left as `str::replace` does.
pub open spec fn replace_path_sep(s: Seq<char>) -> Seq<char>
    decreases s.len(),
{
    if s.len() == 0 {
        seq![]
    } else if s.len() >= 2 && s[0] == ':' && s[1] == ':' {
        seq!['_'] + replace_path_sep(s.skip(2))
    } else {
        seq![s[0]] + replace_path_sep(s.skip(1))
    }
}

/// `s` with every `c` replaced by `d`.
pub open spec fn replace_char(s: Seq<char>, c: char, d: char) -> Seq<char> {
    s.map_values(|x: char| if x == c { d } else { x })
}

/// A digit as a character.
pub fn digit(d: u64) -> (c: char)
    requires
        d < 16,
    ensures
        c == digit_char(d as int),
{
    if d == 0 { '0' }
    else if d == 1 { '1' }
    else if d == 2 { '2' }
    else if d == 3 { '3' }
    else if d == 4 { '4' }
    else if d == 5 { '5' }
    else if d == 6 { '6' }
    else if d == 7 { '7' }
    else if d == 8 { '8' }
    else if d == 9 { '9' }
    else if d == 10 { 'a' }
    else if d == 11 { 'b' }
    else if d == 12 { 'c' }
    else if d == 13 { 'd' }
    else if d == 14 { 'e' }
    else { 'f' }
}

/// The decimal notation of `n`.
pub fn decimal_string(n: u64) -> (s: String)
    ensures
        s@ == decimal(n as nat),
    decreases n,
{
    if n < 10 {
        let mut s = String::new();
        push_char(&mut s, digit(n));
        assert(s@ =~= decimal(n as nat));
        s
    } else {
        let mut s = decimal_string(n / 10);
        push_char(&mut s, digit(n % 10));
        s
    }
}

/// A copy of `s`.
pub fn copy_str(s: &str) -> (r: String)
    ensures
        r@ == s@,
{
    String::from_str(s)
}

/// The strings of `segs` joined by `sep`.
pub fn join_strings(segs: &Vec<String>, sep: &str) -> (res: String)
    ensures
        res@ == join_with(views(segs@), sep@),
{
    let mut res = String::new();
    let ghost vs = views(segs@);
    let mut i: usize = 0;
    while i < segs.len()
        invariant
            0 <= i <= segs.len(),
            vs == views(segs@),
            res@ == join_with(vs.take(i as int), sep@),
        decreases segs.len() - i,
    {
        let ghost before = res@;
        if i != 0 {
            res.append(sep);
        }
        res.append(segs[i].as_str());
        proof {
            let t = vs.take(i + 1);
            assert(t.drop_last() =~= vs.take(i as int));
            if i == 0 {
                assert(before =~= seq![]);
                assert(res@ =~= t[0]);
            }
        }
        i = i + 1;
    }
    assert(vs.take(segs.len() as int) =~= vs);
    res
}

/// `s` with every `::` replaced by `_`.
pub fn replace_path_separators(s: &str) -> (r: String)
    ensures
        r@ == replace_path_sep(s@),
{
    let n = s.unicode_len();
    let mut r = String::new();
    let mut i: usize = 0;
    assert(s@.skip(0) =~= s@);
    assert(r@ + replace_path_sep(s@) =~= replace_path_sep(s@));
    while i < n
        invariant
            n == s@.len(),
            i <= n,
            replace_path_sep(s@) == r@ + replace_path_sep(s@.skip(i as int)),
        decreases n - i,
    {
        let c = s.get_char(i);
        let ghost rest = s@.skip(i as int);
        if c == ':' && i + 1 < n && s.get_char(i + 1) == ':' {
            push_char(&mut r, '_');
            assert(rest.skip(2) =~= s@.skip(i + 2));
            assert(replace_path_sep(rest) == seq!['_'] + replace_path_sep(rest.skip(2)));
            i = i + 2;
        } else {
            push_char(&mut r, c);
            assert(rest.skip(1) =~= s@.skip(i + 1));
            assert(replace_path_sep(rest) == seq![c] + replace_path_sep(rest.skip(1)));
            i = i + 1;
        }
    }
    assert(s@.skip(n as int) =~= seq![]);
    r
}

/// `s` with every `c` replaced by `d`.
pub fn replace_chars(s: &str, c: char, d: char) -> (r: String)
    ensures
        r@ == replace_char(s@, c, d),
{
    let n = s.unicode_len();
    let mut r = String::new();
    let mut i: usize = 0;
    while i < n
        invariant
            n == s@.len(),
            i <= n,
            r@ == replace_char(s@, c, d).take(i as int),
        decreases n - i,
    {
        let x = s.get_char(i);
        if x == c {
            push_char(&mut r, d);
        } else {
            push_char(&mut r, x);
        }
        assert(replace_char(s@, c, d).take(i + 1) =~= replace_char(s@, c, d).take(i as int).push(
            if x == c { d } else { x },
        ));
        i = i + 1;
    }
    assert(replace_char(s@, c, d).take(n as int) =~= replace_char(s@, c, d));
    r
}

/// Whether two byte slices hold the same bytes.
pub fn const_bytes_equal(lhs: &[u8], rhs: &[u8]) -> (res: bool)
    ensures
        res == (lhs@ == rhs@),
{
    if lhs.len() != rhs.len() {
        return false;
    }
    let mut index: usize = 0;
    while index < lhs.len()
        invariant
            lhs@.len() == rhs@.len(),
            index <= lhs@.len(),
            forall|j: int| 0 <= j < index ==> lhs@[j] == rhs@[j],
        decreases lhs.len() - index,
    {
        if lhs[index] != rhs[index] {
            return false;
        }
        index += 1;
    }
    assert(lhs@ =~= rhs@);
    true
}

/// Whether two strings are equal, compared byte by byte.
pub fn const_str_equal(lhs: &str, rhs: &str) -> (res: bool)
    ensures
        res == (lhs@ == rhs@),
{
    proof {
        vstd::utf8::encode_utf8_decode_utf8(lhs@);
        vstd::utf8::encode_utf8_decode_utf8(rhs@);
    }
    const_bytes_equal(lhs.as_bytes(), rhs.as_bytes())
}

} // verus!
