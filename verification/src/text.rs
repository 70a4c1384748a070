//! Character-level scanning helpers: line-comment stripping, whitespace
//! trimming, decimal symbols and fixed-width binary rendering.

use vstd::prelude::*;

verus! {

broadcast use vstd::string::group_string_axioms;

/// Characters discarded when a statement is trimmed.
pub open spec fn is_space(c: char) -> bool {
    c == ' ' || c == '\t' || c == '\r' || c == '\n'
}

/// A line comment starts at position `j` of `s`.
pub open spec fn comment_at(s: Seq<char>, j: int) -> bool {
    0 <= j && j + 1 < s.len() && s[j] == '/' && s[j + 1] == '/'
}

/// The prefix of `s` before its first line-comment marker.
pub open spec fn cut_comment(s: Seq<char>) -> Seq<char>
    decreases s.len(),
{
    if s.len() >= 2 && s[0] == '/' && s[1] == '/' {
        Seq::empty()
    } else if s.len() == 0 {
        s
    } else {
        seq![s[0]] + cut_comment(s.skip(1))
    }
}

/// `s` without its leading whitespace.
pub open spec fn trim_front(s: Seq<char>) -> Seq<char>
    decreases s.len(),
{
    if s.len() > 0 && is_space(s[0]) {
        trim_front(s.skip(1))
    } else {
        s
    }
}

/// `s` without its trailing whitespace.
pub open spec fn trim_back(s: Seq<char>) -> Seq<char>
    decreases s.len(),
{
    if s.len() > 0 && is_space(s[s.len() - 1]) {
        trim_back(s.take(s.len() - 1))
    } else {
        s
    }
}

/// The statement a raw source line carries: everything before the first
/// comment marker, with surrounding whitespace removed.
pub open spec fn stripped(s: Seq<char>) -> Seq<char> {
    trim_back(trim_front(cut_comment(s)))
}

proof fn lemma_cut_comment_take(s: Seq<char>, p: int)
    requires
        0 <= p <= s.len(),
        forall|j: int| 0 <= j < p ==> !comment_at(s, j),
        p == s.len() || comment_at(s, p),
    ensures
        cut_comment(s) =~= s.take(p),
    decreases s.len(),
{
    if s.len() >= 2 && s[0] == '/' && s[1] == '/' {
        assert(comment_at(s, 0));
        assert(p == 0);
    } else if s.len() == 0 {
    } else {
        assert(!comment_at(s, 0));
        if p == 0 {
            assert(p < s.len());
            assert(comment_at(s, 0));
            assert(false);
        }
        let t = s.skip(1);
        assert(forall|j: int| 0 <= j < p - 1 ==> !comment_at(t, j)) by {
            assert forall|j: int| 0 <= j < p - 1 implies !comment_at(t, j) by {
                assert(t[j] == s[j + 1]);
                assert(j + 1 < t.len() ==> t[j + 1] == s[j + 2]);
                assert(!comment_at(s, j + 1));
            }
        }
        if p < s.len() {
            assert(comment_at(s, p));
            assert(t[p - 1] == s[p]);
            assert(t[p] == s[p + 1]);
            assert(comment_at(t, p - 1));
        }
        lemma_cut_comment_take(t, p - 1);
        assert(cut_comment(s) =~= seq![s[0]] + t.take(p - 1));
        assert(seq![s[0]] + t.take(p - 1) =~= s.take(p));
    }
}

proof fn lemma_trim_front_skip(s: Seq<char>, a: int)
    requires
        0 <= a <= s.len(),
        forall|j: int| 0 <= j < a ==> is_space(s[j]),
        a == s.len() || !is_space(s[a]),
    ensures
        trim_front(s) =~= s.skip(a),
    decreases a,
{
    if a == 0 {
        if s.len() > 0 && is_space(s[0]) {
            assert(false);
        }
        assert(s.skip(0) =~= s);
    } else {
        assert(is_space(s[0]));
        let t = s.skip(1);
        lemma_trim_front_skip(t, a - 1);
        assert(t.skip(a - 1) =~= s.skip(a));
    }
}

proof fn lemma_trim_back_take(s: Seq<char>, b: int)
    requires
        0 <= b <= s.len(),
        forall|j: int| b <= j < s.len() ==> is_space(s[j]),
        b == 0 || !is_space(s[b - 1]),
    ensures
        trim_back(s) =~= s.take(b),
    decreases s.len(),
{
    if b == s.len() {
        if s.len() > 0 && is_space(s[s.len() - 1]) {
            assert(false);
        }
        assert(s.take(b) =~= s);
    } else {
        assert(is_space(s[s.len() - 1]));
        let t = s.take(s.len() - 1);
        lemma_trim_back_take(t, b);
        assert(t.take(b) =~= s.take(b));
    }
}

/// Character-for-character equality of two string slices.
pub fn str_eq(a: &str, b: &str) -> (r: bool)
    ensures
        r == (a@ == b@),
{
    let n = a.unicode_len();
    if n != b.unicode_len() {
        return false;
    }
    let mut i: usize = 0;
    while i < n
        invariant
            n == a@.len(),
            n == b@.len(),
            0 <= i <= n,
            forall|j: int| 0 <= j < i ==> a@[j] == b@[j],
        decreases n - i,
    {
        if a.get_char(i) != b.get_char(i) {
            return false;
        }
        i += 1;
    }
    proof {
        assert(a@ =~= b@);
    }
    true
}

fn is_space_char(c: char) -> (r: bool)
    ensures
        r == is_space(c),
{
    c == ' ' || c == '\t' || c == '\r' || c == '\n'
}

fn find_comment_start(s: &str) -> (p: usize)
    ensures
        p <= s@.len(),
        forall|j: int| 0 <= j < p ==> !comment_at(s@, j),
        p == s@.len() || comment_at(s@, p as int),
{
    let n = s.unicode_len();
    let mut i: usize = 0;
    while 1 <= n && i < n - 1
        invariant
            n == s@.len(),
            0 <= i <= n,
            forall|j: int| 0 <= j < i ==> !comment_at(s@, j),
        decreases n - i,
    {
        if s.get_char(i) == '/' && s.get_char(i + 1) == '/' {
            return i;
        }
        i += 1;
    }
    n
}

/// The statement carried by one raw source line.
pub fn strip_line(line: &str) -> (r: String)
    ensures
        r@ == stripped(line@),
{
    let p = find_comment_start(line);
    let mut a: usize = 0;
    while a < p && is_space_char(line.get_char(a))
        invariant
            p <= line@.len(),
            0 <= a <= p,
            forall|j: int| 0 <= j < a ==> is_space(line@[j]),
        decreases p - a,
    {
        a += 1;
    }
    let mut b: usize = p;
    while b > a && is_space_char(line.get_char(b - 1))
        invariant
            p <= line@.len(),
            a <= b <= p,
            forall|j: int| b <= j < p ==> is_space(line@[j]),
        decreases b,
    {
        b -= 1;
    }
    let r = line.substring_char(a, b).to_owned();
    proof {
        let s = line@;
        let t = s.take(p as int);
        lemma_cut_comment_take(s, p as int);
        assert(forall|j: int| 0 <= j < a ==> is_space(t[j]));
        lemma_trim_front_skip(t, a as int);
        let u = t.skip(a as int);
        assert(forall|j: int| b - a <= j < u.len() ==> is_space(u[j])) by {
            assert forall|j: int| b - a <= j < u.len() implies is_space(u[j]) by {
                assert(u[j] == s[a + j]);
            }
        }
        if b > a {
            assert(u[b - a - 1] == s[b - 1]);
        }
        lemma_trim_back_take(u, b - a);
        assert(u.take(b - a) =~= s.subrange(a as int, b as int));
        assert(r@ == stripped(line@));
    }
    r
}

/// A digit character.
pub open spec fn is_digit(c: char) -> bool {
    48 <= c as u32 <= 57
}

/// A non-empty, all-digit symbol: a literal address.
pub open spec fn is_numeric_str(s: Seq<char>) -> bool {
    s.len() > 0 && forall|i: int| 0 <= i < s.len() ==> is_digit(s[i])
}

/// The value a digit character stands for.
pub open spec fn digit_val(c: char) -> nat {
    ((c as u32) - 48) as nat
}

/// The decimal value of an all-digit symbol.
pub open spec fn dec_value(s: Seq<char>) -> nat
    decreases s.len(),
{
    if s.len() == 0 {
        0
    } else {
        dec_value(s.drop_last()) * 10 + digit_val(s.last())
    }
}

/// Whether a symbol consists solely of digits.
pub fn is_numeric(s: &str) -> (r: bool)
    ensures
        r == is_numeric_str(s@),
{
    let n = s.unicode_len();
    if n == 0 {
        return false;
    }
    let mut i: usize = 0;
    while i < n
        invariant
            n == s@.len(),
            0 <= i <= n,
            forall|j: int| 0 <= j < i ==> is_digit(s@[j]),
        decreases n - i,
    {
        let u = s.get_char(i) as u32;
        if u < 48 || u > 57 {
            return false;
        }
        i += 1;
    }
    true
}

/// The decimal value of an all-digit symbol, when it fits in a 16-bit word.
pub fn dec_value_checked(s: &str) -> (r: Option<u16>)
    requires
        is_numeric_str(s@),
    ensures
        match r {
            Some(v) => dec_value(s@) < 65536 && v == dec_value(s@),
            None => dec_value(s@) >= 65536,
        },
{
    let n = s.unicode_len();
    let mut acc: u32 = 0;
    let mut i: usize = 0;
    while i < n
        invariant
            is_numeric_str(s@),
            n == s@.len(),
            0 <= i <= n,
            dec_value(s@.take(i as int)) < 65536 ==> acc == dec_value(s@.take(i as int)),
            dec_value(s@.take(i as int)) >= 65536 ==> acc == 65536,
            acc <= 65536,
        decreases n - i,
    {
        let d = s.get_char(i) as u32 - 48;
        let mut na: u32 = acc * 10 + d;
        if na > 65536 {
            na = 65536;
        }
        proof {
            let pre = s@.take(i as int);
            let cur = s@.take(i + 1);
            assert(cur.drop_last() =~= pre);
            assert(cur.last() == s@[i as int]);
            assert(dec_value(cur) == dec_value(pre) * 10 + digit_val(s@[i as int]));
        }
        acc = na;
        i += 1;
    }
    proof {
        assert(s@.take(n as int) =~= s@);
    }
    if acc < 65536 {
        Some(acc as u16)
    } else {
        None
    }
}

/// The 16 binary digit characters of a word, most significant first.
pub open spec fn bin16(x: u16) -> Seq<char> {
    Seq::new(16, |i: int| if (x >> ((15 - i) as u16)) & 1 == 1 { '1' } else { '0' })
}

/// Renders a word as exactly 16 binary digits.
pub fn to_bin16(x: u16) -> (r: String)
    ensures
        r@ == bin16(x),
{
    let mut r = String::new();
    let mut k: usize = 0;
    while k < 16
        invariant
            0 <= k <= 16,
            r@ =~= bin16(x).take(k as int),
        decreases 16 - k,
    {
        let sh: u16 = (15 - k) as u16;
        let bit = (x >> sh) & 1;
        if bit == 1 {
            r.append("1");
        } else {
            r.append("0");
        }
        proof {
            reveal_strlit("1");
            reveal_strlit("0");
            assert(bin16(x)[k as int] == (if (x >> ((15 - k) as u16)) & 1 == 1 {
                '1'
            } else {
                '0'
            }));
            assert(r@ =~= bin16(x).take(k + 1));
        }
        k += 1;
    }
    proof {
        assert(bin16(x).take(16) =~= bin16(x));
    }
    r
}

} // verus!
