//! Character-sequence helpers shared by the parsers and the serializer:
//! searching for separators, splitting on them, prefix tests, and decimal
//! numerals.
use vstd::prelude::*;

verus! {

/// Index of the first occurrence of `c` in `s`, or `s.len()` if `c` does not
/// occur.
pub open spec fn find_char(s: Seq<char>, c: char) -> int
    decreases s.len(),
{
    if s.len() == 0 {
        0
    } else if s[0] == c {
        0
    } else {
        1 + find_char(s.drop_first(), c)
    }
}

pub proof fn lemma_find_char(s: Seq<char>, c: char)
    ensures
        0 <= find_char(s, c) <= s.len(),
        find_char(s, c) < s.len() ==> s[find_char(s, c)] == c,
        forall|j: int| 0 <= j < find_char(s, c) ==> s[j] != c,
    decreases s.len(),
{
    if s.len() == 0 {
    } else if s[0] == c {
    } else {
        lemma_find_char(s.drop_first(), c);
        assert forall|j: int| 0 <= j < find_char(s, c) implies s[j] != c by {
            if j >= 1 {
                assert(s.drop_first()[j - 1] == s[j]);
            }
        }
    }
}

/// `find_char` returns the position of the first occurrence: any position
/// preceded only by non-occurrences, and holding `c` unless it is the end,
/// is that position.
pub proof fn lemma_find_char_is_first(s: Seq<char>, c: char, i: int)
    requires
        0 <= i <= s.len(),
        forall|j: int| 0 <= j < i ==> s[j] != c,
        i < s.len() ==> s[i] == c,
    ensures
        find_char(s, c) == i,
    decreases s.len(),
{
    if s.len() == 0 {
    } else if s[0] == c {
        assert(i == 0);
    } else {
        assert(i >= 1);
        assert forall|j: int| 0 <= j < i - 1 implies s.drop_first()[j] != c by {
            assert(s.drop_first()[j] == s[j + 1]);
        }
        if i < s.len() {
            assert(s.drop_first()[i - 1] == s[i]);
        }
        lemma_find_char_is_first(s.drop_first(), c, i - 1);
    }
}

/// Position of the first occurrence of `c` in `s`, scanning characters one by
/// one.
pub fn find_char_in(s: &str, c: char) -> (i: usize)
    ensures
        i == find_char(s@, c),
{
    let n = s.unicode_len();
    let mut i: usize = 0;
    while i < n
        invariant
            i <= n,
            n == s@.len(),
            forall|j: int| 0 <= j < i ==> s@[j] != c,
        decreases n - i,
    {
        if s.get_char(i) == c {
            proof {
                lemma_find_char_is_first(s@, c, i as int);
            }
            return i;
        }
        i = i + 1;
    }
    proof {
        lemma_find_char_is_first(s@, c, n as int);
    }
    n
}

/// Index of the first occurrence of the two-character sequence `c1 c2` in
/// `s`, or `s.len()` if it does not occur.
pub open spec fn find_pair(s: Seq<char>, c1: char, c2: char) -> int
    decreases s.len(),
{
    if s.len() < 2 {
        s.len() as int
    } else if s[0] == c1 && s[1] == c2 {
        0
    } else {
        1 + find_pair(s.drop_first(), c1, c2)
    }
}

pub proof fn lemma_find_pair(s: Seq<char>, c1: char, c2: char)
    ensures
        0 <= find_pair(s, c1, c2) <= s.len(),
        find_pair(s, c1, c2) < s.len() ==> find_pair(s, c1, c2) + 1 < s.len()
            && s[find_pair(s, c1, c2)] == c1 && s[find_pair(s, c1, c2) + 1] == c2,
        forall|j: int|
            0 <= j < find_pair(s, c1, c2) ==> !(j + 1 < s.len() && #[trigger] s[j] == c1 && s[j + 1] == c2),
    decreases s.len(),
{
    if s.len() < 2 {
    } else if s[0] == c1 && s[1] == c2 {
    } else {
        lemma_find_pair(s.drop_first(), c1, c2);
        assert forall|j: int|
            0 <= j < find_pair(s, c1, c2) implies !(j + 1 < s.len() && #[trigger] s[j] == c1 && s[j
                + 1] == c2) by {
            if j >= 1 {
                assert(s.drop_first()[j - 1] == s[j]);
                assert(j + 1 < s.len() ==> s.drop_first()[j] == s[j + 1]);
            }
        }
    }
}

pub proof fn lemma_find_pair_is_first(s: Seq<char>, c1: char, c2: char, i: int)
    requires
        0 <= i <= s.len(),
        forall|j: int| 0 <= j < i ==> !(j + 1 < s.len() && #[trigger] s[j] == c1 && s[j + 1] == c2),
        i < s.len() ==> i + 1 < s.len() && s[i] == c1 && s[i + 1] == c2,
    ensures
        find_pair(s, c1, c2) == i,
    decreases s.len(),
{
    if s.len() < 2 {
        if i < s.len() {
            assert(false);
        }
    } else if s[0] == c1 && s[1] == c2 {
        assert(i == 0);
    } else {
        assert(i >= 1);
        assert forall|j: int|
            0 <= j < i - 1 implies !(j + 1 < s.drop_first().len() && #[trigger] s.drop_first()[j]
                == c1 && s.drop_first()[j + 1] == c2) by {
            assert(s.drop_first()[j] == s[j + 1]);
            assert(j + 2 < s.len() ==> s.drop_first()[j + 1] == s[j + 2]);
        }
        if i < s.len() {
            assert(s.drop_first()[i - 1] == s[i]);
            assert(s.drop_first()[i] == s[i + 1]);
        }
        lemma_find_pair_is_first(s.drop_first(), c1, c2, i - 1);
    }
}

/// Position of the first occurrence of the pair `c1 c2` in `s`.
pub fn find_pair_in(s: &str, c1: char, c2: char) -> (i: usize)
    ensures
        i == find_pair(s@, c1, c2),
{
    let n = s.unicode_len();
    if n < 1 {
        proof {
            lemma_find_pair_is_first(s@, c1, c2, n as int);
        }
        return n;
    }
    let mut i: usize = 0;
    while i + 1 < n
        invariant
            i < n,
            n == s@.len(),
            forall|j: int| 0 <= j < i ==> !(j + 1 < s@.len() && #[trigger] s@[j] == c1 && s@[j + 1] == c2),
        decreases n - i,
    {
        if s.get_char(i) == c1 && s.get_char(i + 1) == c2 {
            proof {
                lemma_find_pair_is_first(s@, c1, c2, i as int);
            }
            return i;
        }
        i = i + 1;
    }
    proof {
        assert forall|j: int|
            0 <= j < n implies !(j + 1 < s@.len() && #[trigger] s@[j] == c1 && s@[j + 1] == c2) by {
            if j < i {
            } else {
                assert(j + 1 >= n);
            }
        }
        lemma_find_pair_is_first(s@, c1, c2, n as int);
    }
    n
}

/// The pieces of `s` between occurrences of the separator `sep`, like
/// `str::split` with a one-character pattern: always at least one piece, and
/// empty pieces are kept.
pub open spec fn split_char(s: Seq<char>, sep: char) -> Seq<Seq<char>>
    decreases s.len() via split_char_decreases
{
    let i = find_char(s, sep);
    if i == s.len() {
        seq![s]
    } else {
        seq![s.take(i)] + split_char(s.skip(i + 1), sep)
    }
}

#[via_fn]
proof fn split_char_decreases(s: Seq<char>, sep: char) {
    lemma_find_char(s, sep);
}

/// The pieces of `s` between occurrences of the two-character separator
/// `c1 c2`, like `str::split` with a two-character pattern.
pub open spec fn split_pair(s: Seq<char>, c1: char, c2: char) -> Seq<Seq<char>>
    decreases s.len() via split_pair_decreases
{
    let i = find_pair(s, c1, c2);
    if i == s.len() {
        seq![s]
    } else {
        seq![s.take(i)] + split_pair(s.skip(i + 2), c1, c2)
    }
}

#[via_fn]
proof fn split_pair_decreases(s: Seq<char>, c1: char, c2: char) {
    lemma_find_pair(s, c1, c2);
}

/// A line with one trailing carriage return removed, as `str::lines` yields
/// it.
pub open spec fn strip_cr(l: Seq<char>) -> Seq<char> {
    if l.len() > 0 && l[l.len() - 1] == '\r' {
        l.take(l.len() - 1)
    } else {
        l
    }
}

/// The lines of `s`, in the manner of `str::lines`: pieces separated by
/// `'\n'`, each stripped of one trailing `'\r'`, with no final empty piece
/// for a trailing newline.
pub open spec fn lines_of(s: Seq<char>) -> Seq<Seq<char>>
    decreases s.len() via lines_of_decreases
{
    if s.len() == 0 {
        seq![]
    } else {
        let i = find_char(s, '\n');
        if i == s.len() {
            seq![strip_cr(s)]
        } else {
            seq![strip_cr(s.take(i))] + lines_of(s.skip(i + 1))
        }
    }
}

#[via_fn]
proof fn lines_of_decreases(s: Seq<char>) {
    lemma_find_char(s, '\n');
}

/// Whether `pre` is a prefix of `s`.
pub open spec fn has_prefix(s: Seq<char>, pre: Seq<char>) -> bool {
    s.len() >= pre.len() && s.take(pre.len() as int) == pre
}

/// Character-by-character string equality, equivalent to equality of the
/// views.
pub fn str_eq_str(a: &str, b: &str) -> (r: bool)
    ensures
        r == (a@ == b@),
{
    let a_len = a.unicode_len();
    let b_len = b.unicode_len();
    if a_len != b_len {
        assert(a@ != b@);
        return false;
    }
    let mut i: usize = 0;
    while i < a_len
        invariant
            i <= a_len,
            a_len == a@.len(),
            b_len == b@.len(),
            a_len == b_len,
            forall|j: int| 0 <= j < i ==> a@[j] == b@[j],
        decreases a_len - i,
    {
        if a.get_char(i) != b.get_char(i) {
            assert(a@[i as int] != b@[i as int]);
            assert(a@ != b@);
            return false;
        }
        i = i + 1;
    }
    assert(a@ =~= b@);
    true
}

/// Whether the string `pre` is a prefix of the string `s`.
pub fn str_has_prefix(s: &str, pre: &str) -> (r: bool)
    ensures
        r == has_prefix(s@, pre@),
{
    let s_len = s.unicode_len();
    let p_len = pre.unicode_len();
    if s_len < p_len {
        return false;
    }
    let mut i: usize = 0;
    while i < p_len
        invariant
            i <= p_len,
            p_len <= s_len,
            s_len == s@.len(),
            p_len == pre@.len(),
            forall|j: int| 0 <= j < i ==> s@[j] == pre@[j],
        decreases p_len - i,
    {
        if s.get_char(i) != pre.get_char(i) {
            assert(s@.take(pre@.len() as int)[i as int] != pre@[i as int]);
            return false;
        }
        i = i + 1;
    }
    assert(s@.take(pre@.len() as int) =~= pre@);
    true
}

/// Position of the first occurrence of `c` in `s` at or after `from`,
/// reported against `find_char` on the suffix.
pub fn find_char_from(s: &str, from: usize, c: char) -> (i: usize)
    requires
        from <= s@.len(),
    ensures
        from <= i <= s@.len(),
        i - from == find_char(s@.skip(from as int), c),
{
    let n = s.unicode_len();
    let mut i: usize = from;
    while i < n
        invariant
            from <= i <= n,
            n == s@.len(),
            forall|j: int| from <= j < i ==> s@[j] != c,
        decreases n - i,
    {
        if s.get_char(i) == c {
            proof {
                let suf = s@.skip(from as int);
                assert forall|k: int| 0 <= k < i - from implies suf[k] != c by {
                    assert(suf[k] == s@[from + k]);
                }
                assert(suf[i - from] == s@[i as int]);
                lemma_find_char_is_first(suf, c, i - from);
            }
            return i;
        }
        i = i + 1;
    }
    proof {
        let suf = s@.skip(from as int);
        assert forall|k: int| 0 <= k < n - from implies suf[k] != c by {
            assert(suf[k] == s@[from + k]);
        }
        lemma_find_char_is_first(suf, c, n - from);
    }
    n
}

/// The lines of `s` as owned strings, one per element of `lines_of`.
pub fn split_lines(s: &str) -> (r: Vec<String>)
    ensures
        r@.map_values(|l: String| l@) == lines_of(s@),
{
    let n = s.unicode_len();
    let mut out: Vec<String> = Vec::new();
    let mut pos: usize = 0;
    proof {
        assert(s@.skip(0) =~= s@);
        assert(out@.map_values(|l: String| l@) + lines_of(s@.skip(0)) =~~= lines_of(s@));
    }
    while pos < n
        invariant
            pos <= n,
            n == s@.len(),
            lines_of(s@) == out@.map_values(|l: String| l@) + lines_of(s@.skip(pos as int)),
        decreases n - pos,
    {
        let i = find_char_from(s, pos, '\n');
        let line_end = if i > pos && s.get_char(i - 1) == '\r' {
            i - 1
        } else {
            i
        };
        proof {
            lemma_find_char(s@.skip(pos as int), '\n');
        }
        let piece = s.substring_char(pos, line_end).to_owned();
        proof {
            let suf = s@.skip(pos as int);
            let i_rel = i - pos;
            assert(suf.len() == n - pos);
            assert(suf.take(i_rel) =~= s@.subrange(pos as int, i as int));
            if i > pos {
                assert(suf.take(i_rel)[i_rel - 1] == s@[i - 1]);
            }
            if i < n {
                assert(strip_cr(suf.take(i_rel)) =~= s@.subrange(pos as int, line_end as int));
                assert(suf.skip(i_rel + 1) =~= s@.skip(i + 1));
                assert(lines_of(suf) == seq![strip_cr(suf.take(i_rel))] + lines_of(
                    s@.skip(i + 1)));
                assert(piece@ == strip_cr(suf.take(i_rel)));
            } else {
                assert(suf =~= s@.subrange(pos as int, n as int));
                assert(strip_cr(suf) =~= s@.subrange(pos as int, line_end as int));
                assert(lines_of(suf) == seq![strip_cr(suf)]);
                assert(s@.skip(n as int).len() == 0);
                assert(lines_of(s@.skip(n as int)) == Seq::<Seq<char>>::empty());
                assert(piece@ == strip_cr(suf));
            }
        }
        let ghost old_out = out@;
        out.push(piece);
        proof {
            assert(out@.map_values(|l: String| l@) =~~= old_out.map_values(|l: String| l@)
                + seq![piece@]);
        }
        pos = if i < n {
            i + 1
        } else {
            n
        };
        proof {
            assert(lines_of(s@) =~~= out@.map_values(|l: String| l@) + lines_of(
                s@.skip(pos as int)));
        }
    }
    proof {
        assert(s@.skip(pos as int).len() == 0);
        assert(lines_of(s@.skip(pos as int)) == Seq::<Seq<char>>::empty());
        assert(lines_of(s@) =~~= out@.map_values(|l: String| l@));
    }
    out
}

/// Whether `c` is a decimal digit.
pub open spec fn is_digit(c: char) -> bool {
    '0' <= c <= '9'
}

/// Whether `s` consists of decimal digits only.
pub open spec fn is_digits(s: Seq<char>) -> bool {
    forall|i: int| 0 <= i < s.len() ==> is_digit(#[trigger] s[i])
}

/// The numeric value of a digit character; zero elsewhere.
pub open spec fn digit_val(c: char) -> nat {
    if is_digit(c) {
        (c as nat - '0' as nat) as nat
    } else {
        0
    }
}

/// The digit character for a value below ten.
pub open spec fn dec_digit(n: nat) -> char {
    if n == 0 { '0' }
    else if n == 1 { '1' }
    else if n == 2 { '2' }
    else if n == 3 { '3' }
    else if n == 4 { '4' }
    else if n == 5 { '5' }
    else if n == 6 { '6' }
    else if n == 7 { '7' }
    else if n == 8 { '8' }
    else { '9' }
}

/// The value of a string of decimal digits, most significant first.
pub open spec fn dec_value(s: Seq<char>) -> nat
    decreases s.len(),
{
    if s.len() == 0 {
        0
    } else {
        dec_value(s.drop_last()) * 10 + digit_val(s.last())
    }
}

/// The usual decimal numeral for `n`: no sign, no leading zero except for
/// zero itself.
pub open spec fn dec_str_of(n: nat) -> Seq<char>
    decreases n,
{
    if n < 10 {
        seq![dec_digit(n)]
    } else {
        dec_str_of(n / 10).push(dec_digit(n % 10))
    }
}

/// Decimal printing and parsing agree: the numeral of `n` is digits only and
/// reads back as `n`.
pub proof fn lemma_dec_round_trip(n: nat)
    ensures
        is_digits(dec_str_of(n)),
        dec_str_of(n).len() >= 1,
        dec_value(dec_str_of(n)) == n,
    decreases n,
{
    if n < 10 {
        let s = dec_str_of(n);
        assert(s.drop_last() =~= Seq::<char>::empty());
        assert(dec_value(Seq::<char>::empty()) == 0);
        assert(s.last() == dec_digit(n));
        assert(dec_value(s) == digit_val(dec_digit(n)));
    } else {
        lemma_dec_round_trip(n / 10);
        let s = dec_str_of(n / 10);
        let d = dec_digit(n % 10);
        assert(s.push(d).drop_last() =~= s);
        assert(s.push(d).last() == d);
        assert(dec_value(s.push(d)) == dec_value(s) * 10 + digit_val(d));
        assert(digit_val(d) == n % 10);
        vstd::arithmetic::div_mod::lemma_fundamental_div_mod(n as int, 10);
        assert forall|i: int| 0 <= i < s.push(d).len() implies is_digit(#[trigger] s.push(d)[i])
            by {
            if i < s.len() {
                assert(s.push(d)[i] == s[i]);
            }
        }
    }
}

/// Appending one more digit can only grow the value of a numeral.
proof fn lemma_dec_value_step_le(s: Seq<char>, j: int)
    requires
        0 <= j < s.len(),
    ensures
        dec_value(s.take(j)) <= dec_value(s.take(j + 1)),
{
    assert(s.take(j + 1).drop_last() =~= s.take(j));
    assert(dec_value(s.take(j + 1)) == dec_value(s.take(j)) * 10 + digit_val(s.take(j + 1).last()));
}

/// The value of a numeral is at least the value of any of its prefixes.
pub proof fn lemma_dec_value_prefix_le(s: Seq<char>, i: int)
    requires
        0 <= i <= s.len(),
    ensures
        dec_value(s.take(i)) <= dec_value(s),
    decreases s.len() - i,
{
    if i == s.len() {
        assert(s.take(i) =~= s);
    } else {
        lemma_dec_value_step_le(s, i);
        lemma_dec_value_prefix_le(s, i + 1);
    }
}

/// Parse a string of decimal digits: digits only, no sign, failing on any
/// other character and on values beyond `usize`.
pub fn parse_dec(s: &str) -> (r: Option<usize>)
    ensures
        r matches Some(n) ==> n == dec_value(s@),
        (r matches Some(n)) <==> (s@.len() >= 1 && is_digits(s@) && dec_value(s@) <= usize::MAX),
{
    let n = s.unicode_len();
    if n == 0 {
        return None;
    }
    let mut acc: usize = 0;
    let mut i: usize = 0;
    while i < n
        invariant
            i <= n,
            n == s@.len(),
            n >= 1,
            forall|j: int| 0 <= j < i ==> is_digit(#[trigger] s@[j]),
            acc == dec_value(s@.take(i as int)),
        decreases n - i,
    {
        let c = s.get_char(i);
        if !(c >= '0' && c <= '9') {
            assert(!is_digit(s@[i as int]));
            return None;
        }
        let d: usize = (c as u32 as usize) - 48;
        assert(d == digit_val(c));
        if acc > (usize::MAX - d) / 10 {
            proof {
                assert(s@.take(i + 1).drop_last() =~= s@.take(i as int));
                assert(dec_value(s@.take(i + 1)) == acc * 10 + d);
                assert(acc * 10 + d > usize::MAX) by (nonlinear_arith)
                    requires
                        acc > (usize::MAX - d) / 10,
                        d <= 9,
                        acc <= usize::MAX,
                ;
                lemma_dec_value_prefix_le(s@, i + 1);
            }
            return None;
        }
        proof {
            assert(acc * 10 + d <= usize::MAX) by (nonlinear_arith)
                requires
                    acc <= (usize::MAX - d) / 10,
                    d <= 9,
            ;
            assert(s@.take(i + 1).drop_last() =~= s@.take(i as int));
            assert(s@.take(i + 1).last() == s@[i as int]);
        }
        acc = acc * 10 + d;
        i = i + 1;
    }
    proof {
        assert(s@.take(n as int) =~= s@);
    }
    Some(acc)
}

/// Relies on `String::push`: appends exactly the given character.
#[verifier::external_body]
pub fn push_char(s: &mut String, c: char)
    ensures
        final(s)@ == old(s)@.push(c),
{
    s.push(c);
}

/// The digit character for a value below ten.
pub fn digit_char(d: usize) -> (c: char)
    requires
        d < 10,
    ensures
        c == dec_digit(d as nat),
{
    match d {
        0 => '0',
        1 => '1',
        2 => '2',
        3 => '3',
        4 => '4',
        5 => '5',
        6 => '6',
        7 => '7',
        8 => '8',
        _ => '9',
    }
}

/// The decimal numeral of `n` as a string.
pub fn usize_to_dec(n: usize) -> (r: String)
    ensures
        r@ == dec_str_of(n as nat),
    decreases n,
{
    if n < 10 {
        let mut s = String::new();
        push_char(&mut s, digit_char(n));
        proof {
            assert(s@ =~= seq![dec_digit(n as nat)]);
        }
        s
    } else {
        let mut s = usize_to_dec(n / 10);
        push_char(&mut s, digit_char(n % 10));
        s
    }
}

} // verus!
